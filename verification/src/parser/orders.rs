//! Orders from words, and words from orders.
use vstd::prelude::*;
use vstd::string::StringSliceAdditionalSpecFns;
use crate::geo::key::{region_name_of, region_text, RegionKey, RegionName};
use crate::nation::Nation;
use crate::order::{BuildCommand, BuildOrder, BuildOrderView, CommandView, ConvoyedMove, MainCommand,
    Order, OrderView, RetreatCommand, RetreatCommandView, RetreatOrder, RetreatOrderView,
    SupportedOrder, SupportedView};
use crate::parser::error::{Error, ErrorKind};
use crate::parser::words::{join, join_words, split_words, words_of, words_view};
use crate::text::{bytes_clone, bytes_to_string, lower, lower_eq};
use crate::unit::{a_word, f_word, UnitType};

verus! {

/// The word `hold`.
pub open spec fn hold_word() -> Seq<u8> {
    seq![104u8, 111u8, 108u8, 100u8]
}

/// The word `holds`.
pub open spec fn holds_word() -> Seq<u8> {
    seq![104u8, 111u8, 108u8, 100u8, 115u8]
}

/// The word `->`.
pub open spec fn arrow_word() -> Seq<u8> {
    seq![45u8, 62u8]
}

/// The word `supports`.
pub open spec fn supports_word() -> Seq<u8> {
    seq![115u8, 117u8, 112u8, 112u8, 111u8, 114u8, 116u8, 115u8]
}

/// The word `convoys`.
pub open spec fn convoys_word() -> Seq<u8> {
    seq![99u8, 111u8, 110u8, 118u8, 111u8, 121u8, 115u8]
}

/// The word `build`.
pub open spec fn build_word() -> Seq<u8> {
    seq![98u8, 117u8, 105u8, 108u8, 100u8]
}

/// The word `disband`.
pub open spec fn disband_word() -> Seq<u8> {
    seq![100u8, 105u8, 115u8, 98u8, 97u8, 110u8, 100u8]
}

/// The word without the colons at its end.
pub open spec fn without_colons(w: Seq<u8>) -> Seq<u8>
    decreases w.len(),
{
    if w.len() > 0 && w.last() == 58 {
        without_colons(w.drop_last())
    } else {
        w
    }
}

/// The region that a word names, or the error that it names none.
pub open spec fn region_of(w: Seq<u8>) -> Result<RegionName, ErrorKind> {
    match region_name_of(w) {
        Some(r) => Ok(r),
        None => Err(ErrorKind::InvalidRegion),
    }
}

/// The unit type that a word names, or the error that it names none.
pub open spec fn unit_type_of(w: Seq<u8>) -> Result<UnitType, ErrorKind> {
    match UnitType::parse_spec(w) {
        Some(u) => Ok(u),
        None => Err(ErrorKind::InvalidUnitType),
    }
}

/// The supported order that the words name: a unit type and a region for a
/// hold; a unit type, a region, an arrow and a region for a move. Where the
/// unit type is left out, an army is meant.
pub open spec fn supported_of(w: Seq<Seq<u8>>) -> Result<SupportedView, ErrorKind> {
    if w.len() == 1 {
        match region_of(w[0]) {
            Ok(r) => Ok(SupportedView::Hold(UnitType::Army, r)),
            Err(e) => Err(e),
        }
    } else if w.len() == 2 {
        match unit_type_of(w[0]) {
            Ok(u) => match region_of(w[1]) {
                Ok(r) => Ok(SupportedView::Hold(u, r)),
                Err(e) => Err(e),
            },
            Err(e) => Err(e),
        }
    } else if w.len() == 3 {
        match region_of(w[0]) {
            Ok(f) => match region_of(w[2]) {
                Ok(t) => Ok(SupportedView::Move(UnitType::Army, f, t)),
                Err(e) => Err(e),
            },
            Err(e) => Err(e),
        }
    } else if w.len() == 4 {
        match unit_type_of(w[0]) {
            Ok(u) => match region_of(w[1]) {
                Ok(f) => match region_of(w[3]) {
                    Ok(t) => Ok(SupportedView::Move(u, f, t)),
                    Err(e) => Err(e),
                },
                Err(e) => Err(e),
            },
            Err(e) => Err(e),
        }
    } else {
        Err(ErrorKind::MalformedSupport)
    }
}

/// The convoyed move that the words name: a region, an arrow and a region.
pub open spec fn convoyed_of(w: Seq<Seq<u8>>) -> Result<(RegionName, RegionName), ErrorKind> {
    if w.len() == 3 {
        match region_of(w[0]) {
            Ok(f) => match region_of(w[2]) {
                Ok(t) => Ok((f, t)),
                Err(e) => Err(e),
            },
            Err(e) => Err(e),
        }
    } else {
        Err(ErrorKind::MalformedConvoy)
    }
}

/// The command of a main phase that the words name. The first word, in
/// either case, decides: `hold` or `holds`, `->`, `supports`, `convoys`.
pub open spec fn main_command_of(w: Seq<Seq<u8>>) -> Result<CommandView, ErrorKind> {
    if w.len() == 0 {
        Err(ErrorKind::TooFewWords)
    } else {
        let first = lower(w[0]);
        if first == holds_word() || first == hold_word() {
            Ok(CommandView::Hold)
        } else if first == arrow_word() {
            if w.len() < 2 {
                Err(ErrorKind::MalformedMove)
            } else {
                match region_of(w[1]) {
                    Ok(d) => Ok(CommandView::Move(d)),
                    Err(e) => Err(e),
                }
            }
        } else if first == supports_word() {
            match supported_of(w.skip(1)) {
                Ok(s) => Ok(CommandView::Support(s)),
                Err(e) => Err(e),
            }
        } else if first == convoys_word() {
            match convoyed_of(w.skip(1)) {
                Ok(c) => Ok(CommandView::Convoy(c.0, c.1)),
                Err(e) => Err(e),
            }
        } else {
            Err(ErrorKind::UnknownCommand)
        }
    }
}

/// The command of a retreat phase that the words name.
pub open spec fn retreat_command_of(w: Seq<Seq<u8>>) -> Result<RetreatCommandView, ErrorKind> {
    if w.len() == 0 {
        Err(ErrorKind::TooFewWords)
    } else {
        let first = lower(w[0]);
        if first == hold_word() || first == holds_word() {
            Ok(RetreatCommandView::Hold)
        } else if first == arrow_word() {
            if w.len() < 2 {
                Err(ErrorKind::MalformedMove)
            } else {
                match region_of(w[1]) {
                    Ok(d) => Ok(RetreatCommandView::Move(d)),
                    Err(e) => Err(e),
                }
            }
        } else {
            Err(ErrorKind::UnknownCommand)
        }
    }
}

/// The command of a build phase that the words name.
pub open spec fn build_command_of(w: Seq<Seq<u8>>) -> Result<BuildCommand, ErrorKind> {
    if w.len() == 0 {
        Err(ErrorKind::TooFewWords)
    } else {
        let first = lower(w[0]);
        if first == build_word() {
            Ok(BuildCommand::Build)
        } else if first == disband_word() {
            Ok(BuildCommand::Disband)
        } else {
            Err(ErrorKind::UnknownCommand)
        }
    }
}

/// The unit that the first three words name: the nation, with the colons
/// at its end left out, the unit type and the region.
pub open spec fn unit_of_words(w: Seq<Seq<u8>>) -> Result<(Seq<u8>, UnitType, RegionName), ErrorKind> {
    if w.len() < 3 {
        Err(ErrorKind::TooFewWords)
    } else {
        match unit_type_of(w[1]) {
            Ok(u) => match region_of(w[2]) {
                Ok(r) => Ok((lower(without_colons(w[0])), u, r)),
                Err(e) => Err(e),
            },
            Err(e) => Err(e),
        }
    }
}

/// The order of a main phase that the words name.
pub open spec fn order_of_words(w: Seq<Seq<u8>>) -> Result<OrderView, ErrorKind> {
    match unit_of_words(w) {
        Err(e) => Err(e),
        Ok(unit) => match main_command_of(w.skip(3)) {
            Ok(c) => Ok(OrderView { nation: unit.0, unit_type: unit.1, region: unit.2, command: c }),
            Err(e) => Err(e),
        },
    }
}

/// The order of a main phase that a line of text names.
pub open spec fn order_of_text(line: Seq<u8>) -> Result<OrderView, ErrorKind> {
    order_of_words(words_of(line))
}

/// The order of a retreat phase that the words name.
pub open spec fn retreat_order_of_words(w: Seq<Seq<u8>>) -> Result<RetreatOrderView, ErrorKind> {
    match unit_of_words(w) {
        Err(e) => Err(e),
        Ok(unit) => match retreat_command_of(w.skip(3)) {
            Ok(c) => Ok(
                RetreatOrderView { nation: unit.0, unit_type: unit.1, region: unit.2, command: c },
            ),
            Err(e) => Err(e),
        },
    }
}

/// The order of a build phase that the words name.
pub open spec fn build_order_of_words(w: Seq<Seq<u8>>) -> Result<BuildOrderView, ErrorKind> {
    match unit_of_words(w) {
        Err(e) => Err(e),
        Ok(unit) => match build_command_of(w.skip(3)) {
            Ok(c) => Ok(
                BuildOrderView { nation: unit.0, unit_type: unit.1, region: unit.2, command: c },
            ),
            Err(e) => Err(e),
        },
    }
}

/// The words that stand for a supported order.
pub open spec fn supported_words(s: SupportedView) -> Seq<Seq<u8>> {
    match s {
        SupportedView::Hold(u, r) => seq![seq![u.letter()], region_text(r)],
        SupportedView::Move(u, f, t) => seq![
            seq![u.letter()],
            region_text(f),
            arrow_word(),
            region_text(t),
        ],
    }
}

/// The words that stand for a command of a main phase.
pub open spec fn command_words(c: CommandView) -> Seq<Seq<u8>> {
    match c {
        CommandView::Hold => seq![hold_word()],
        CommandView::Move(d) => seq![arrow_word(), region_text(d)],
        CommandView::Support(s) => seq![supports_word()] + supported_words(s),
        CommandView::Convoy(f, t) => seq![
            convoys_word(),
            region_text(f),
            arrow_word(),
            region_text(t),
        ],
    }
}

/// The words that stand for a unit: the nation with a colon, the letter of
/// the unit type, and the region.
pub open spec fn unit_words(nation: Seq<u8>, unit_type: UnitType, region: RegionName) -> Seq<
    Seq<u8>,
> {
    seq![nation.push(58u8), seq![unit_type.letter()], region_text(region)]
}

/// The words that stand for a command of a retreat phase.
pub open spec fn retreat_command_words(c: RetreatCommandView) -> Seq<Seq<u8>> {
    match c {
        RetreatCommandView::Hold => seq![hold_word()],
        RetreatCommandView::Move(d) => seq![arrow_word(), region_text(d)],
    }
}

/// The words that stand for a command of a build phase.
pub open spec fn build_command_words(c: BuildCommand) -> Seq<Seq<u8>> {
    match c {
        BuildCommand::Build => seq![build_word()],
        BuildCommand::Disband => seq![disband_word()],
    }
}

/// The words that stand for an order of a retreat phase.
pub open spec fn retreat_order_words(o: RetreatOrderView) -> Seq<Seq<u8>> {
    unit_words(o.nation, o.unit_type, o.region) + retreat_command_words(o.command)
}

/// The words that stand for an order of a build phase.
pub open spec fn build_order_words(o: BuildOrderView) -> Seq<Seq<u8>> {
    unit_words(o.nation, o.unit_type, o.region) + build_command_words(o.command)
}

/// The text of an order of a retreat phase.
pub open spec fn retreat_order_text(o: RetreatOrderView) -> Seq<u8> {
    join(retreat_order_words(o))
}

/// The text of an order of a build phase.
pub open spec fn build_order_text(o: BuildOrderView) -> Seq<u8> {
    join(build_order_words(o))
}

/// The order of a retreat phase that a line of text names.
pub open spec fn retreat_order_of_text(line: Seq<u8>) -> Result<RetreatOrderView, ErrorKind> {
    retreat_order_of_words(words_of(line))
}

/// The order of a build phase that a line of text names.
pub open spec fn build_order_of_text(line: Seq<u8>) -> Result<BuildOrderView, ErrorKind> {
    build_order_of_words(words_of(line))
}

/// The words that stand for an order of a main phase: the nation with a
/// colon, the letter of the unit type, the region, and the command.
pub open spec fn order_words(o: OrderView) -> Seq<Seq<u8>> {
    unit_words(o.nation, o.unit_type, o.region) + command_words(o.command)
}

/// The text of an order of a main phase.
pub open spec fn order_text(o: OrderView) -> Seq<u8> {
    join(order_words(o))
}

/// A parser which operates on whitespace-delimited words from an input string.
pub trait FromWords: Sized {
    /// The associated error which can be returned from parsing.
    type Err;

    /// Performs the conversion.
    fn from_words(w: &[Vec<u8>]) -> Result<Self, Self::Err>;
}

/// What a parser returns, against what the words name.
pub open spec fn parsed<T: View>(r: Result<T, Error>, s: Result<T::V, ErrorKind>) -> bool {
    match r {
        Ok(v) => s == Ok::<T::V, ErrorKind>(v@),
        Err(e) => s == Err::<T::V, ErrorKind>(e.kind_spec()),
    }
}

/// The region that a word names.
fn parse_region(w: &Vec<u8>) -> (r: Result<RegionKey, Error>)
    ensures
        parsed(r, region_of(w@)),
{
    match RegionKey::parse(w.as_slice()) {
        Some(k) => Ok(k),
        None => Err(Error::new(ErrorKind::InvalidRegion, w)),
    }
}

/// The unit type that a word names.
fn parse_unit_type(w: &Vec<u8>) -> (r: Result<UnitType, Error>)
    ensures
        r matches Ok(u) ==> unit_type_of(w@) == Ok::<UnitType, ErrorKind>(u),
        r matches Err(e) ==> unit_type_of(w@) == Err::<UnitType, ErrorKind>(e.kind_spec()),
{
    let a = vec![97u8];
    let army = vec![97u8, 114u8, 109u8, 121u8];
    let f = vec![102u8];
    let fleet = vec![102u8, 108u8, 101u8, 101u8, 116u8];
    proof {
        assert(a@ =~= a_word());
        assert(f@ =~= f_word());
    }
    if lower_eq(w, &a) || lower_eq(w, &army) {
        Ok(UnitType::Army)
    } else if lower_eq(w, &f) || lower_eq(w, &fleet) {
        Ok(UnitType::Fleet)
    } else {
        Err(Error::new(ErrorKind::InvalidUnitType, w))
    }
}

/// The words from place `from` on.
fn rest_of(w: &[Vec<u8>], from: usize) -> (r: &[Vec<u8>])
    requires
        from <= w@.len(),
    ensures
        r@ == w@.skip(from as int),
        words_view(r@) == words_view(w@).skip(from as int),
{
    vstd::slice::slice_subrange(w, from, w.len())
}

impl FromWords for SupportedOrder {
    type Err = Error;

    fn from_words(w: &[Vec<u8>]) -> (r: Result<SupportedOrder, Error>)
        ensures
            parsed(r, supported_of(words_view(w@))),
    {
        if w.len() == 1 {
            match parse_region(&w[0]) {
                Ok(region) => Ok(SupportedOrder::Hold(UnitType::Army, region)),
                Err(e) => Err(e),
            }
        } else if w.len() == 2 {
            match parse_unit_type(&w[0]) {
                Ok(u) => match parse_region(&w[1]) {
                    Ok(region) => Ok(SupportedOrder::Hold(u, region)),
                    Err(e) => Err(e),
                },
                Err(e) => Err(e),
            }
        } else if w.len() == 3 {
            match parse_region(&w[0]) {
                Ok(from) => match parse_region(&w[2]) {
                    Ok(to) => Ok(SupportedOrder::Move(UnitType::Army, from, to)),
                    Err(e) => Err(e),
                },
                Err(e) => Err(e),
            }
        } else if w.len() == 4 {
            match parse_unit_type(&w[0]) {
                Ok(u) => match parse_region(&w[1]) {
                    Ok(from) => match parse_region(&w[3]) {
                        Ok(to) => Ok(SupportedOrder::Move(u, from, to)),
                        Err(e) => Err(e),
                    },
                    Err(e) => Err(e),
                },
                Err(e) => Err(e),
            }
        } else {
            Err(Error::new(ErrorKind::MalformedSupport, &join_slice(w)))
        }
    }
}

/// The words of a slice, with one blank between each two.
fn join_slice(w: &[Vec<u8>]) -> (r: Vec<u8>)
    ensures
        r@ == join(words_view(w@)),
{
    let mut copy: Vec<Vec<u8>> = Vec::new();
    let mut i: usize = 0;
    while i < w.len()
        invariant
            i <= w.len(),
            copy@.len() == i,
            forall|k: int| 0 <= k < i ==> (#[trigger] copy@[k])@ == w@[k]@,
        decreases w.len() - i,
    {
        copy.push(bytes_clone(&w[i]));
        i += 1;
    }
    assert(words_view(copy@) =~= words_view(w@));
    join_words(&copy)
}

impl FromWords for ConvoyedMove {
    type Err = Error;

    fn from_words(w: &[Vec<u8>]) -> (r: Result<ConvoyedMove, Error>)
        ensures
            parsed(r, convoyed_of(words_view(w@))),
    {
        if w.len() == 3 {
            match parse_region(&w[0]) {
                Ok(from) => match parse_region(&w[2]) {
                    Ok(to) => Ok(ConvoyedMove::new(from, to)),
                    Err(e) => Err(e),
                },
                Err(e) => Err(e),
            }
        } else {
            Err(Error::new(ErrorKind::MalformedConvoy, &join_slice(w)))
        }
    }
}

impl FromWords for MainCommand {
    type Err = Error;

    fn from_words(w: &[Vec<u8>]) -> (r: Result<MainCommand, Error>)
        ensures
            parsed(r, main_command_of(words_view(w@))),
    {
        if w.len() == 0 {
            return Err(Error::new(ErrorKind::TooFewWords, &Vec::new()));
        }
        let first = &w[0];
        if lower_eq(first, &vec![104u8, 111u8, 108u8, 100u8, 115u8]) || lower_eq(
            first,
            &vec![104u8, 111u8, 108u8, 100u8],
        ) {
            Ok(MainCommand::Hold)
        } else if lower_eq(first, &vec![45u8, 62u8]) {
            if w.len() < 2 {
                Err(Error::new(ErrorKind::MalformedMove, first))
            } else {
                match parse_region(&w[1]) {
                    Ok(dest) => Ok(MainCommand::Move(dest)),
                    Err(e) => Err(e),
                }
            }
        } else if lower_eq(
            first,
            &vec![115u8, 117u8, 112u8, 112u8, 111u8, 114u8, 116u8, 115u8],
        ) {
            match SupportedOrder::from_words(rest_of(w, 1)) {
                Ok(s) => Ok(MainCommand::Support(s)),
                Err(e) => Err(e),
            }
        } else if lower_eq(first, &vec![99u8, 111u8, 110u8, 118u8, 111u8, 121u8, 115u8]) {
            match ConvoyedMove::from_words(rest_of(w, 1)) {
                Ok(c) => Ok(MainCommand::Convoy(c)),
                Err(e) => Err(e),
            }
        } else {
            Err(Error::new(ErrorKind::UnknownCommand, first))
        }
    }
}

impl FromWords for RetreatCommand {
    type Err = Error;

    fn from_words(w: &[Vec<u8>]) -> (r: Result<RetreatCommand, Error>)
        ensures
            parsed(r, retreat_command_of(words_view(w@))),
    {
        if w.len() == 0 {
            return Err(Error::new(ErrorKind::TooFewWords, &Vec::new()));
        }
        let first = &w[0];
        if lower_eq(first, &vec![104u8, 111u8, 108u8, 100u8]) || lower_eq(
            first,
            &vec![104u8, 111u8, 108u8, 100u8, 115u8],
        ) {
            Ok(RetreatCommand::Hold)
        } else if lower_eq(first, &vec![45u8, 62u8]) {
            if w.len() < 2 {
                Err(Error::new(ErrorKind::MalformedMove, first))
            } else {
                match parse_region(&w[1]) {
                    Ok(dest) => Ok(RetreatCommand::Move(dest)),
                    Err(e) => Err(e),
                }
            }
        } else {
            Err(Error::new(ErrorKind::UnknownCommand, first))
        }
    }
}

/// What the parser of build commands returns, against what the words name.
pub open spec fn parsed_build(r: Result<BuildCommand, Error>, s: Result<BuildCommand, ErrorKind>)
    -> bool {
    match r {
        Ok(v) => s == Ok::<BuildCommand, ErrorKind>(v),
        Err(e) => s == Err::<BuildCommand, ErrorKind>(e.kind_spec()),
    }
}

impl FromWords for BuildCommand {
    type Err = Error;

    fn from_words(w: &[Vec<u8>]) -> (r: Result<BuildCommand, Error>)
        ensures
            parsed_build(r, build_command_of(words_view(w@))),
    {
        if w.len() == 0 {
            return Err(Error::new(ErrorKind::TooFewWords, &Vec::new()));
        }
        let first = &w[0];
        if lower_eq(first, &vec![98u8, 117u8, 105u8, 108u8, 100u8]) {
            Ok(BuildCommand::Build)
        } else if lower_eq(first, &vec![100u8, 105u8, 115u8, 98u8, 97u8, 110u8, 100u8]) {
            Ok(BuildCommand::Disband)
        } else {
            Err(Error::new(ErrorKind::UnknownCommand, first))
        }
    }
}

/// The word without the colons at its end.
fn trim_colons(w: &Vec<u8>) -> (r: Vec<u8>)
    ensures
        r@ == without_colons(w@),
{
    let mut end: usize = w.len();
    assert(w@.subrange(0, end as int) =~= w@);
    while end > 0 && w[end - 1] == 58
        invariant
            end <= w.len(),
            without_colons(w@) == without_colons(w@.subrange(0, end as int)),
        decreases end,
    {
        proof {
            let cur = w@.subrange(0, end as int);
            assert(cur.drop_last() =~= w@.subrange(0, end as int - 1));
        }
        end -= 1;
    }
    let mut out: Vec<u8> = Vec::new();
    let mut i: usize = 0;
    while i < end
        invariant
            i <= end <= w.len(),
            out@ == w@.subrange(0, i as int),
        decreases end - i,
    {
        out.push(w[i]);
        i += 1;
    }
    out
}

/// The unit that the first three words name.
fn parse_unit(w: &[Vec<u8>]) -> (r: Result<(Nation, UnitType, RegionKey), Error>)
    ensures
        r matches Ok(u) ==> unit_of_words(words_view(w@)) == Ok::<
            (Seq<u8>, UnitType, RegionName),
            ErrorKind,
        >((u.0@, u.1, u.2@)),
        r matches Err(e) ==> unit_of_words(words_view(w@)) == Err::<
            (Seq<u8>, UnitType, RegionName),
            ErrorKind,
        >(e.kind_spec()),
{
    if w.len() < 3 {
        return Err(Error::new(ErrorKind::TooFewWords, &join_slice(w)));
    }
    let unit_type = match parse_unit_type(&w[1]) {
        Ok(u) => u,
        Err(e) => {
            return Err(e);
        },
    };
    let region = match parse_region(&w[2]) {
        Ok(r) => r,
        Err(e) => {
            return Err(e);
        },
    };
    let name = trim_colons(&w[0]);
    let nation = Nation::from_bytes(name.as_slice());
    Ok((nation, unit_type, region))
}

impl Order {
    /// The order of a main phase that a line of text names:
    /// `NATION: UNITTYPE REGION COMMAND`.
    pub fn parse(line: &[u8]) -> (r: Result<Order, Error>)
        ensures
            parsed(r, order_of_text(line@)),
    {
        let words = split_words(line);
        let w = words.as_slice();
        let unit = match parse_unit(w) {
            Ok(u) => u,
            Err(e) => {
                return Err(e);
            },
        };
        match MainCommand::from_words(rest_of(w, 3)) {
            Ok(command) => Ok(Order::new(unit.0, unit.1, unit.2, command)),
            Err(e) => Err(e),
        }
    }

    /// The words that stand for the order.
    pub fn to_words(&self) -> (r: Vec<Vec<u8>>)
        ensures
            words_view(r@) == order_words(self@),
    {
        let mut out = unit_to_words(&self.nation, self.unit_type, &self.region);
        match &self.command {
            MainCommand::Hold => {
                push_word(&mut out, vec![104u8, 111u8, 108u8, 100u8]);
            },
            MainCommand::Move(d) => {
                push_word(&mut out, vec![45u8, 62u8]);
                push_word(&mut out, d.text());
            },
            MainCommand::Support(SupportedOrder::Hold(u, r)) => {
                push_word(&mut out, vec![115u8, 117u8, 112u8, 112u8, 111u8, 114u8, 116u8, 115u8]);
                push_word(&mut out, letter_word(*u));
                push_word(&mut out, r.text());
            },
            MainCommand::Support(SupportedOrder::Move(u, f, t)) => {
                push_word(&mut out, vec![115u8, 117u8, 112u8, 112u8, 111u8, 114u8, 116u8, 115u8]);
                push_word(&mut out, letter_word(*u));
                push_word(&mut out, f.text());
                push_word(&mut out, vec![45u8, 62u8]);
                push_word(&mut out, t.text());
            },
            MainCommand::Convoy(c) => {
                push_word(&mut out, vec![99u8, 111u8, 110u8, 118u8, 111u8, 121u8, 115u8]);
                push_word(&mut out, c.from().text());
                push_word(&mut out, vec![45u8, 62u8]);
                push_word(&mut out, c.to().text());
            },
        }
        out
    }

    /// The text of the order, as bytes.
    pub fn to_text(&self) -> (r: Vec<u8>)
        ensures
            r@ == order_text(self@),
    {
        join_words(&self.to_words())
    }

    /// The text of the order.
    pub fn to_string(&self) -> (r: String)
        ensures
            vstd::utf8::valid_utf8(order_text(self@)) ==> r@ == vstd::utf8::decode_utf8(
                order_text(self@),
            ),
    {
        bytes_to_string(&self.to_text())
    }
}

/// The word that stands for the unit type.
fn letter_word(u: UnitType) -> (r: Vec<u8>)
    ensures
        r@ == seq![u.letter()],
{
    let mut out: Vec<u8> = Vec::new();
    out.push(unit_letter(u));
    out
}

/// Puts a word at the end of the words.
fn push_word(out: &mut Vec<Vec<u8>>, w: Vec<u8>)
    ensures
        words_view(final(out)@) == words_view(old(out)@).push(w@),
{
    out.push(w);
}

/// The words that stand for a unit.
fn unit_to_words(nation: &Nation, unit_type: UnitType, region: &RegionKey) -> (r: Vec<Vec<u8>>)
    ensures
        words_view(r@) == unit_words(nation@, unit_type, region@),
{
    let mut out: Vec<Vec<u8>> = Vec::new();
    let mut name = bytes_clone(nation.name());
    name.push(58);
    push_word(&mut out, name);
    push_word(&mut out, letter_word(unit_type));
    push_word(&mut out, region.text());
    assert(words_view(out@) =~= unit_words(nation@, unit_type, region@));
    out
}

/// The letter that stands for the unit type.
pub fn unit_letter(u: UnitType) -> (r: u8)
    ensures
        r == u.letter(),
{
    match u {
        UnitType::Army => 65,
        UnitType::Fleet => 70,
    }
}

impl RetreatOrder {
    /// The words that stand for the order.
    pub fn to_words(&self) -> (r: Vec<Vec<u8>>)
        ensures
            words_view(r@) == retreat_order_words(self@),
    {
        let mut out = unit_to_words(&self.nation, self.unit_type, &self.region);
        match &self.command {
            RetreatCommand::Hold => {
                push_word(&mut out, vec![104u8, 111u8, 108u8, 100u8]);
            },
            RetreatCommand::Move(d) => {
                push_word(&mut out, vec![45u8, 62u8]);
                push_word(&mut out, d.text());
            },
        }
        assert(words_view(out@) =~= retreat_order_words(self@));
        out
    }

    /// The text of the order, as bytes.
    pub fn to_text(&self) -> (r: Vec<u8>)
        ensures
            r@ == retreat_order_text(self@),
    {
        join_words(&self.to_words())
    }

    /// The text of the order.
    pub fn to_string(&self) -> (r: String)
        ensures
            vstd::utf8::valid_utf8(retreat_order_text(self@)) ==> r@ == vstd::utf8::decode_utf8(
                retreat_order_text(self@),
            ),
    {
        bytes_to_string(&self.to_text())
    }

    /// The order of a retreat phase that a line of text names.
    pub fn parse(line: &[u8]) -> (r: Result<RetreatOrder, Error>)
        ensures
            parsed(r, retreat_order_of_text(line@)),
    {
        let words = split_words(line);
        let w = words.as_slice();
        let unit = match parse_unit(w) {
            Ok(u) => u,
            Err(e) => {
                return Err(e);
            },
        };
        match RetreatCommand::from_words(rest_of(w, 3)) {
            Ok(command) => Ok(RetreatOrder::new(unit.0, unit.1, unit.2, command)),
            Err(e) => Err(e),
        }
    }
}

impl BuildOrder {
    /// The words that stand for the order.
    pub fn to_words(&self) -> (r: Vec<Vec<u8>>)
        ensures
            words_view(r@) == build_order_words(self@),
    {
        let mut out = unit_to_words(&self.nation, self.unit_type, &self.region);
        match self.command {
            BuildCommand::Build => {
                push_word(&mut out, vec![98u8, 117u8, 105u8, 108u8, 100u8]);
            },
            BuildCommand::Disband => {
                push_word(&mut out, vec![100u8, 105u8, 115u8, 98u8, 97u8, 110u8, 100u8]);
            },
        }
        assert(words_view(out@) =~= build_order_words(self@));
        out
    }

    /// The text of the order, as bytes.
    pub fn to_text(&self) -> (r: Vec<u8>)
        ensures
            r@ == build_order_text(self@),
    {
        join_words(&self.to_words())
    }

    /// The text of the order.
    pub fn to_string(&self) -> (r: String)
        ensures
            vstd::utf8::valid_utf8(build_order_text(self@)) ==> r@ == vstd::utf8::decode_utf8(
                build_order_text(self@),
            ),
    {
        bytes_to_string(&self.to_text())
    }

    /// The order of a build phase that a line of text names.
    pub fn parse(line: &[u8]) -> (r: Result<BuildOrder, Error>)
        ensures
            parsed(r, build_order_of_text(line@)),
    {
        let words = split_words(line);
        let w = words.as_slice();
        let unit = match parse_unit(w) {
            Ok(u) => u,
            Err(e) => {
                return Err(e);
            },
        };
        match BuildCommand::from_words(rest_of(w, 3)) {
            Ok(command) => Ok(BuildOrder::new(unit.0, unit.1, unit.2, command)),
            Err(e) => Err(e),
        }
    }
}

impl core::str::FromStr for Order {
    type Err = Error;

    fn from_str(s: &str) -> (r: Result<Order, Error>)
        ensures
            parsed(r, order_of_text(s.spec_bytes())),
    {
        Order::parse(s.as_bytes())
    }
}

impl core::str::FromStr for RetreatOrder {
    type Err = Error;

    fn from_str(s: &str) -> (r: Result<RetreatOrder, Error>)
        ensures
            parsed(r, retreat_order_of_text(s.spec_bytes())),
    {
        RetreatOrder::parse(s.as_bytes())
    }
}

impl core::str::FromStr for BuildOrder {
    type Err = Error;

    fn from_str(s: &str) -> (r: Result<BuildOrder, Error>)
        ensures
            parsed(r, build_order_of_text(s.spec_bytes())),
    {
        BuildOrder::parse(s.as_bytes())
    }
}

} // verus!
