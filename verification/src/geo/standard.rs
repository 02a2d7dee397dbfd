//! The board of the standard game.
use vstd::prelude::*;
use vstd::string::StringSliceAdditionalSpecFns;
use crate::geo::map::WorldMap;
use crate::geo::table::{map_from_table, table_map};

verus! {

/// The board of the standard game, as text: 75 provinces, 34 of them
/// supply centers, and the borders between their regions.
pub const STANDARD_BOARD: &'static str = "\
sea adr  sea aeg  sea bal  sea bar  sea bla  sea eas\n\
sea eng  sea bot  sea lyo  sea hel  sea ion  sea iri\n\
sea mao  sea nao  sea nth  sea nwg  sea ska  sea tys\n\
sea wes\n\
land boh -  land bud aus  land gal -  land tyr -  land vie aus\n\
land bur -  land par fra  land mun ger  land ruh -  land sil -\n\
land mos rus  land ukr -  land war rus  land ser *\n\
coast tri aus  coast cly -  coast edi eng  coast lvp eng  coast lon eng\n\
coast wal -  coast yor -  coast bre fra  coast gas -  coast mar fra\n\
coast pic -  coast ber ger  coast kie ger  coast pru -  coast apu -\n\
coast nap ita  coast pie -  coast rom ita  coast tus -  coast ven ita\n\
coast fin -  coast lvn -  coast sev rus  coast ank tur  coast arm -\n\
coast con tur  coast smy tur  coast syr -  coast alb -  coast bel *\n\
coast den *  coast gre *  coast hol *  coast nwy *  coast naf -\n\
coast por *  coast rum *  coast swe *  coast tun *\n\
split spa ns *  split stp ns rus  split bul es *\n\
army edi lvp  army lvp yor  army yor wal  army bre par  army pic par\n\
army pic bur  army par bur  army par gas  army gas bur  army gas mar\n\
army gas spa  army mar spa  army mar bur  army bur bel  army bur ruh\n\
army bur mun  army bel ruh  army hol ruh  army kie mun  army kie ruh\n\
army ber sil  army ber mun  army mun ruh  army mun sil  army mun boh\n\
army mun tyr  army pru sil  army pru war  army sil war  army sil boh\n\
army sil gal  army nwy fin  army nwy stp  army fin stp  army stp lvn\n\
army stp mos  army lvn mos  army lvn war  army mos war  army mos ukr\n\
army mos sev  army war ukr  army war gal  army ukr gal  army ukr rum\n\
army ukr sev  army boh vie  army boh tyr  army boh gal  army vie gal\n\
army vie bud  army vie tri  army vie tyr  army tyr ven  army tyr tri\n\
army tyr pie  army bud gal  army bud rum  army bud ser  army bud tri\n\
army tri ser  army gal rum  army rum bul  army rum ser  army ser bul\n\
army ser gre  army ser alb  army gre bul  army bul con  army pie ven\n\
army ven tus  army ven rom  army rom apu  army ank smy  army arm smy\n\
army arm syr  army por spa\n\
both cly edi  both cly lvp  both edi yor  both yor lon  both lon wal\n\
both wal lvp  both bre pic  both bre gas  both pic bel  both mar pie\n\
both bel hol  both hol kie  both kie den  both kie ber  both ber pru\n\
both pru lvn  both den swe  both swe nwy  both swe fin  both sev rum\n\
both sev arm  both tri ven  both tri alb  both alb gre  both pie tus\n\
both ven apu  both tus rom  both rom nap  both nap apu  both con ank\n\
both con smy  both ank arm  both smy syr  both naf tun\n\
fleet nao nwg  fleet nao cly  fleet nao lvp  fleet nao iri\n\
fleet nao mao  fleet nwg bar  fleet nwg nwy  fleet nwg nth\n\
fleet nwg edi  fleet nwg cly  fleet bar nwy  fleet bar stp(nc)\n\
fleet nth nwy  fleet nth ska  fleet nth den  fleet nth hel\n\
fleet nth hol  fleet nth bel  fleet nth eng  fleet nth lon\n\
fleet nth yor  fleet nth edi  fleet ska nwy  fleet ska swe\n\
fleet ska den  fleet hel den  fleet hel kie  fleet hel hol\n\
fleet bal den  fleet bal swe  fleet bal bot  fleet bal lvn\n\
fleet bal pru  fleet bal ber  fleet bal kie  fleet bot swe\n\
fleet bot fin  fleet bot stp(sc)  fleet bot lvn  fleet iri lvp\n\
fleet iri wal  fleet iri eng  fleet iri mao  fleet eng wal\n\
fleet eng lon  fleet eng bel  fleet eng pic  fleet eng bre\n\
fleet eng mao  fleet mao bre  fleet mao gas  fleet mao spa(nc)\n\
fleet mao por  fleet mao spa(sc)  fleet mao naf  fleet mao wes\n\
fleet wes spa(sc)  fleet wes lyo  fleet wes tys  fleet wes tun\n\
fleet wes naf  fleet lyo spa(sc)  fleet lyo mar  fleet lyo pie\n\
fleet lyo tus  fleet lyo tys  fleet tys tus  fleet tys rom\n\
fleet tys nap  fleet tys ion  fleet tys tun  fleet ion nap\n\
fleet ion apu  fleet ion adr  fleet ion alb  fleet ion gre\n\
fleet ion aeg  fleet ion eas  fleet ion tun  fleet adr ven\n\
fleet adr tri  fleet adr alb  fleet adr apu  fleet aeg gre\n\
fleet aeg bul(sc)  fleet aeg con  fleet aeg smy  fleet aeg eas\n\
fleet eas smy  fleet eas syr  fleet bla rum  fleet bla sev\n\
fleet bla arm  fleet bla ank  fleet bla con  fleet bla bul(ec)\n\
fleet spa(nc) por  fleet spa(sc) por  fleet spa(nc) gas  fleet spa(sc) mar\n\
fleet stp(nc) nwy  fleet stp(sc) fin  fleet stp(sc) lvn  fleet bul(ec) rum\n\
fleet bul(ec) con  fleet bul(sc) con  fleet bul(sc) gre\n\
";

/// The board of the standard game.
pub fn standard_map() -> (r: WorldMap)
    ensures
        r.wf(),
        r@ == table_map(STANDARD_BOARD.spec_bytes()),
{
    map_from_table(STANDARD_BOARD.as_bytes())
}

} // verus!
