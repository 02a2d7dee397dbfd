//! The text of an order names that order.
use vstd::prelude::*;
use crate::geo::key::{region_text, RegionName};
use crate::order::{BuildCommand, BuildOrderView, CommandView, OrderView, RetreatCommandView,
    RetreatOrderView, SupportedView};
use crate::parser::error::ErrorKind;
use crate::parser::orders::{arrow_word, build_command_of, build_command_words, build_order_of_text,
    build_order_text, build_order_words, build_word, command_words, convoys_word, disband_word,
    hold_word, holds_word, main_command_of, order_of_text, order_of_words, order_text, order_words,
    region_of, retreat_command_of, retreat_command_words, retreat_order_of_text, retreat_order_text,
    retreat_order_words, supports_word, unit_of_words, unit_type_of, unit_words, without_colons};
use crate::parser::words::{is_space, is_word, lemma_words_of_join};
use crate::text::{lower, lower_byte};
use crate::unit::{a_word, f_word, UnitType};

verus! {

/// Whether the name holds no white space and no upper-case letter.
pub open spec fn plain_name(s: Seq<u8>) -> bool {
    forall|i: int| 0 <= i < s.len() ==> !is_space(#[trigger] s[i]) && lower_byte(s[i]) == s[i]
}

/// Whether the name of the nation can stand in the text of an order: it is
/// plain and does not end in a colon.
pub open spec fn nation_fits(n: Seq<u8>) -> bool {
    plain_name(n) && (n.len() == 0 || n.last() != 58)
}

/// Whether the region can stand in the text of an order: the name of its
/// province is plain and not empty and, for a region without a coast, does
/// not end in what reads as a coast in brackets.
pub open spec fn region_fits(r: RegionName) -> bool {
    let p = r.province;
    let n = p.len() as int;
    &&& plain_name(p)
    &&& n > 0
    &&& r.coast is None ==> !(n >= 5 && p[n - 1] == 41 && p[n - 4] == 40)
}

/// Whether every name in the order can stand in the text of an order.
pub open spec fn order_fits(o: OrderView) -> bool {
    &&& nation_fits(o.nation)
    &&& region_fits(o.region)
    &&& match o.command {
        CommandView::Hold => true,
        CommandView::Move(d) => region_fits(d),
        CommandView::Support(SupportedView::Hold(_, r)) => region_fits(r),
        CommandView::Support(SupportedView::Move(_, f, t)) => region_fits(f) && region_fits(t),
        CommandView::Convoy(f, t) => region_fits(f) && region_fits(t),
    }
}

/// A plain name is its own lower-case form.
proof fn lemma_lower_plain(s: Seq<u8>)
    requires
        plain_name(s),
    ensures
        lower(s) == s,
{
}

/// The text of a region is one word, and it names the region.
proof fn lemma_region_text(r: RegionName)
    requires
        region_fits(r),
    ensures
        is_word(region_text(r)),
        region_of(region_text(r)) == Ok::<RegionName, ErrorKind>(r),
{
    let p = r.province;
    let t = region_text(r);
    lemma_lower_plain(p);
    match r.coast {
        None => {},
        Some(c) => {
            let n = t.len() as int;
            assert(t.subrange(0, n - 4) =~= p);
        },
    }
}

/// The letter of a unit type is one word, and it names the unit type.
proof fn lemma_letter_word(u: UnitType)
    ensures
        is_word(seq![u.letter()]),
        unit_type_of(seq![u.letter()]) == Ok::<UnitType, ErrorKind>(u),
{
    let w = seq![u.letter()];
    match u {
        UnitType::Army => {
            assert(lower(w) =~= a_word());
        },
        UnitType::Fleet => {
            assert(lower(w) =~= f_word());
            assert(f_word()[0] != a_word()[0]);
        },
    }
}

/// The words of a command are words, and they name the command.
proof fn lemma_command_words(c: CommandView)
    requires
        match c {
            CommandView::Hold => true,
            CommandView::Move(d) => region_fits(d),
            CommandView::Support(SupportedView::Hold(_, r)) => region_fits(r),
            CommandView::Support(SupportedView::Move(_, f, t)) => region_fits(f) && region_fits(t),
            CommandView::Convoy(f, t) => region_fits(f) && region_fits(t),
        },
    ensures
        command_words(c).len() >= 1,
        forall|i: int| 0 <= i < command_words(c).len() ==> is_word(#[trigger] command_words(c)[i]),
        main_command_of(command_words(c)) == Ok::<CommandView, ErrorKind>(c),
{
    assert(lower(hold_word()) =~= hold_word());
    assert(lower(arrow_word()) =~= arrow_word());
    assert(lower(supports_word()) =~= supports_word());
    assert(lower(convoys_word()) =~= convoys_word());
    match c {
        CommandView::Hold => {},
        CommandView::Move(d) => {
            lemma_region_text(d);
        },
        CommandView::Support(s) => {
            match s {
                SupportedView::Hold(u, r) => {
                    lemma_letter_word(u);
                    lemma_region_text(r);
                },
                SupportedView::Move(u, f, t) => {
                    lemma_letter_word(u);
                    lemma_region_text(f);
                    lemma_region_text(t);
                },
            }
        },
        CommandView::Convoy(f, t) => {
            lemma_region_text(f);
            lemma_region_text(t);
        },
    }
}

/// A name that does not end in a colon, with one colon put at its end,
/// is that name once the colons are taken off.
proof fn lemma_one_colon(n: Seq<u8>)
    requires
        n.len() == 0 || n.last() != 58,
    ensures
        without_colons(n.push(58u8)) == n,
{
    assert(n.push(58u8).drop_last() =~= n);
    assert(without_colons(n) == n);
}

/// The words of a unit are words; put before other words, they name the
/// unit, and the other words are what follows them.
proof fn lemma_unit_words(n: Seq<u8>, u: UnitType, r: RegionName, tail: Seq<Seq<u8>>)
    requires
        nation_fits(n),
        region_fits(r),
    ensures
        forall|i: int| 0 <= i < 3 ==> is_word(#[trigger] unit_words(n, u, r)[i]),
        unit_of_words(unit_words(n, u, r) + tail) == Ok::<
            (Seq<u8>, UnitType, RegionName),
            ErrorKind,
        >((n, u, r)),
        (unit_words(n, u, r) + tail).skip(3) == tail,
{
    let head = unit_words(n, u, r);
    let w = head + tail;
    lemma_letter_word(u);
    lemma_region_text(r);
    lemma_one_colon(n);
    lemma_lower_plain(n);
    assert(w.skip(3) =~= tail);
    assert(w[0] == n.push(58u8) && w[1] == seq![u.letter()] && w[2] == region_text(r));
    assert(is_word(head[0])) by {
        assert forall|i: int| 0 <= i < head[0].len() implies !is_space(#[trigger] head[0][i]) by {
            if i < n.len() {
                assert(head[0][i] == n[i]);
            }
        }
    }
}

/// Whether every name in the retreat order can stand in the text of an
/// order.
pub open spec fn retreat_order_fits(o: RetreatOrderView) -> bool {
    &&& nation_fits(o.nation)
    &&& region_fits(o.region)
    &&& match o.command {
        RetreatCommandView::Hold => true,
        RetreatCommandView::Move(d) => region_fits(d),
    }
}

/// Whether every name in the build order can stand in the text of an
/// order.
pub open spec fn build_order_fits(o: BuildOrderView) -> bool {
    nation_fits(o.nation) && region_fits(o.region)
}

/// Typed retreat order to text to typed retreat order preserves the order.
pub proof fn retreat_order_text_round_trip(o: RetreatOrderView)
    requires
        retreat_order_fits(o),
    ensures
        retreat_order_of_text(retreat_order_text(o)) == Ok::<RetreatOrderView, ErrorKind>(o),
{
    let tail = retreat_command_words(o.command);
    let w = retreat_order_words(o);
    lemma_unit_words(o.nation, o.unit_type, o.region, tail);
    assert(lower(hold_word()) =~= hold_word());
    assert(lower(arrow_word()) =~= arrow_word());
    assert(is_word(hold_word()));
    assert(is_word(arrow_word()));
    assert(arrow_word().len() != hold_word().len());
    assert(arrow_word().len() != holds_word().len());
    match o.command {
        RetreatCommandView::Hold => {},
        RetreatCommandView::Move(d) => {
            lemma_region_text(d);
        },
    }
    assert(retreat_command_of(tail) == Ok::<RetreatCommandView, ErrorKind>(o.command));
    assert forall|i: int| 0 <= i < w.len() implies is_word(#[trigger] w[i]) by {
        if i >= 3 {
            assert(w[i] == tail[i - 3]);
        } else {
            assert(w[i] == unit_words(o.nation, o.unit_type, o.region)[i]);
        }
    }
    lemma_words_of_join(w);
}

/// Typed build order to text to typed build order preserves the order.
pub proof fn build_order_text_round_trip(o: BuildOrderView)
    requires
        build_order_fits(o),
    ensures
        build_order_of_text(build_order_text(o)) == Ok::<BuildOrderView, ErrorKind>(o),
{
    let tail = build_command_words(o.command);
    let w = build_order_words(o);
    lemma_unit_words(o.nation, o.unit_type, o.region, tail);
    assert(lower(build_word()) =~= build_word());
    assert(lower(disband_word()) =~= disband_word());
    assert(is_word(build_word()));
    assert(is_word(disband_word()));
    assert(build_word().len() != disband_word().len());
    assert(build_command_of(tail) == Ok::<BuildCommand, ErrorKind>(o.command));
    assert forall|i: int| 0 <= i < w.len() implies is_word(#[trigger] w[i]) by {
        if i >= 3 {
            assert(w[i] == tail[i - 3]);
        } else {
            assert(w[i] == unit_words(o.nation, o.unit_type, o.region)[i]);
        }
    }
    lemma_words_of_join(w);
}

/// The words of an order name that order.
pub proof fn order_words_round_trip(o: OrderView)
    requires
        order_fits(o),
    ensures
        forall|i: int| 0 <= i < order_words(o).len() ==> is_word(#[trigger] order_words(o)[i]),
        order_of_words(order_words(o)) == Ok::<OrderView, ErrorKind>(o),
{
    lemma_command_words(o.command);
    lemma_letter_word(o.unit_type);
    lemma_region_text(o.region);
    lemma_one_colon(o.nation);
    lemma_lower_plain(o.nation);
}

/// Typed order to text to typed order preserves the order: the text of an
/// order whose names can stand in a text names that very order.
pub proof fn order_text_round_trip(o: OrderView)
    requires
        order_fits(o),
    ensures
        order_of_text(order_text(o)) == Ok::<OrderView, ErrorKind>(o),
{
    order_words_round_trip(o);
    lemma_words_of_join(order_words(o));
}

} // verus!
