//! The domain parameters of the signature scheme, and a proof that the
//! generator has order `q` modulo `p`.

use vstd::arithmetic::div_mod::{lemma_mul_mod_noop_left, lemma_mul_mod_noop_right};
use vstd::arithmetic::power::{lemma_pow0, lemma_pow1, lemma_pow_adds, pow};
use vstd::prelude::*;

verus! {

/// The prime modulus.
pub open spec fn modulus_p() -> nat {
    100171957116027409589353405993935820347426201265179460517658228929832800232041nat
}

/// The prime order of the subgroup, a divisor of `p - 1`.
pub open spec fn order_q() -> nat {
    294378924251756658506775180343451703611nat
}

/// The generator of the subgroup.
pub open spec fn generator_g() -> nat {
    31386163582287930555526549190665019552068439786161706594508575036593710785145nat
}

/// `g` to a power below four, modulo `p`.
pub open spec fn small_power(d: nat) -> nat {
    if d == 0 {
        1
    } else if d == 1 {
        31386163582287930555526549190665019552068439786161706594508575036593710785145nat
    } else if d == 2 {
        30219201345972241935839145240863845720394945893019208163545107464791720247767nat
    } else {
        74310925973287364917498115380672546408175591136632124327268139717001921741336nat
    }
}

/// From `g^e mod p == c` to `g^(4e + d) mod p == c2`; returns `4e + d`.
proof fn lemma_order_step(e: nat, c: nat, d: nat, c2: nat) -> (e2: nat)
    requires
        pow(generator_g() as int, e) % (modulus_p() as int) == c,
        d < 4,
        c2 == (c * c * c * c * small_power(d)) % modulus_p(),
    ensures
        e2 == 4 * e + d,
        pow(generator_g() as int, e2) % (modulus_p() as int) == c2,
{
    let g = generator_g() as int;
    let p = modulus_p() as int;
    let a = pow(g, e);
    let ci = c as int;
    lemma_pow_adds(g, e, e);
    lemma_pow_adds(g, 2 * e, 2 * e);
    lemma_pow_adds(g, 4 * e, d);
    assert(pow(g, d) % p == small_power(d)) by {
        lemma_pow0(g);
        lemma_pow1(g);
        lemma_pow_adds(g, 1, 1);
        lemma_pow_adds(g, 2, 1);
        assert((31386163582287930555526549190665019552068439786161706594508575036593710785145nat * 31386163582287930555526549190665019552068439786161706594508575036593710785145nat) % 100171957116027409589353405993935820347426201265179460517658228929832800232041nat == 30219201345972241935839145240863845720394945893019208163545107464791720247767nat);
        assert((31386163582287930555526549190665019552068439786161706594508575036593710785145nat * 31386163582287930555526549190665019552068439786161706594508575036593710785145nat * 31386163582287930555526549190665019552068439786161706594508575036593710785145nat) % 100171957116027409589353405993935820347426201265179460517658228929832800232041nat == 74310925973287364917498115380672546408175591136632124327268139717001921741336nat);
    }
    let a4 = a * a * (a * a);
    assert(pow(g, 4 * e) == a4);
    lemma_mul_mod_noop_left(a, a, p);
    lemma_mul_mod_noop_right(ci, a, p);
    assert((a * a) % p == (ci * ci) % p);
    assert(a4 % p == (ci * ci * ci * ci) % p) by {
        let aa = a * a;
        let cc = ci * ci;
        lemma_mul_mod_noop_left(aa, aa, p);
        lemma_mul_mod_noop_left(cc, aa, p);
        lemma_mul_mod_noop_right(cc, aa, p);
        lemma_mul_mod_noop_right(cc, cc, p);
        assert(cc * cc == ci * ci * ci * ci) by (nonlinear_arith)
            requires
                cc == ci * ci,
        ;
    }
    lemma_mul_mod_noop_left(a4, pow(g, d), p);
    lemma_mul_mod_noop_right(a4 % p, pow(g, d), p);
    lemma_mul_mod_noop_left(ci * ci * ci * ci, small_power(d) as int, p);
    4 * e + d
}

/// `g` has order `q` modulo `p`: `g^q mod p == 1`. The steps walk the
/// base-4 digits of `q`, each giving the next power of `g` modulo `p`.
pub proof fn lemma_generator_order()
    ensures
        pow(generator_g() as int, order_q()) % (modulus_p() as int) == 1,
{
    let mut e: nat = 0;
    lemma_pow0(generator_g() as int);
    e = lemma_order_step(e, 1nat, 3, 74310925973287364917498115380672546408175591136632124327268139717001921741336nat);
    e = lemma_order_step(e, 74310925973287364917498115380672546408175591136632124327268139717001921741336nat, 1, 94827786599856446528698469884433633725832864838793362848629682027835200080640nat);
    e = lemma_order_step(e, 94827786599856446528698469884433633725832864838793362848629682027835200080640nat, 3, 27800123950187272766760157806543360682052870502711834594646963035426751439901nat);
    e = lemma_order_step(e, 27800123950187272766760157806543360682052870502711834594646963035426751439901nat, 1, 68282364666439796085084782321124779806661861585697472053466017075141353385047nat);
    e = lemma_order_step(e, 68282364666439796085084782321124779806661861585697472053466017075141353385047nat, 1, 6620527612177542935324047580460890509150774190464092205385119419352191064595nat);
    e = lemma_order_step(e, 6620527612177542935324047580460890509150774190464092205385119419352191064595nat, 3, 99193823447620662486398318092476798824451793331274349901649899534572305749351nat);
    e = lemma_order_step(e, 99193823447620662486398318092476798824451793331274349901649899534572305749351nat, 1, 61367452043324476929808067759869707613140922714455962152719730620552648567584nat);
    e = lemma_order_step(e, 61367452043324476929808067759869707613140922714455962152719730620552648567584nat, 3, 43445049153078503992029001926341232247978879970786992738454061026021221667258nat);
    e = lemma_order_step(e, 43445049153078503992029001926341232247978879970786992738454061026021221667258nat, 1, 59195994673527005332684619227812608678420221689204628014356911989951055585949nat);
    e = lemma_order_step(e, 59195994673527005332684619227812608678420221689204628014356911989951055585949nat, 1, 75740936475519173951547149071423631669407877245926257618014000250246051291023nat);
    e = lemma_order_step(e, 75740936475519173951547149071423631669407877245926257618014000250246051291023nat, 0, 12434036720809324029974149562250495050041010730472709873203318189429182183220nat);
    e = lemma_order_step(e, 12434036720809324029974149562250495050041010730472709873203318189429182183220nat, 1, 80631925993285325355351263102883195233083154772922732312771053214256833981967nat);
    e = lemma_order_step(e, 80631925993285325355351263102883195233083154772922732312771053214256833981967nat, 2, 45031914915966723388645755632852851671567703521542373621064796006470735469533nat);
    e = lemma_order_step(e, 45031914915966723388645755632852851671567703521542373621064796006470735469533nat, 0, 1782863897346599920613306035533735303947293089935799350886915918279606578072nat);
    e = lemma_order_step(e, 1782863897346599920613306035533735303947293089935799350886915918279606578072nat, 2, 30649589689357721176516348722314644728954866114694496462785666191859887951523nat);
    e = lemma_order_step(e, 30649589689357721176516348722314644728954866114694496462785666191859887951523nat, 2, 85724200434412032434188895586162863287746478197299674120528938173375121532592nat);
    e = lemma_order_step(e, 85724200434412032434188895586162863287746478197299674120528938173375121532592nat, 2, 83675105546946055739136832104030616430411249494695618799021851188728376124591nat);
    e = lemma_order_step(e, 83675105546946055739136832104030616430411249494695618799021851188728376124591nat, 1, 28576818950716829311941701512088843606353326161843246763202039741599154928922nat);
    e = lemma_order_step(e, 28576818950716829311941701512088843606353326161843246763202039741599154928922nat, 3, 44043506906181123035497046365981022505056262960195884793685480748779100460982nat);
    e = lemma_order_step(e, 44043506906181123035497046365981022505056262960195884793685480748779100460982nat, 0, 43636779085333093345240547709251202948705146168217176578980774103206724752458nat);
    e = lemma_order_step(e, 43636779085333093345240547709251202948705146168217176578980774103206724752458nat, 2, 25579199386742415459286473744456784807845329722467402284830607838077228610715nat);
    e = lemma_order_step(e, 25579199386742415459286473744456784807845329722467402284830607838077228610715nat, 1, 10746191828065081300300517100230456889496599519982878030043512359439301381430nat);
    e = lemma_order_step(e, 10746191828065081300300517100230456889496599519982878030043512359439301381430nat, 1, 636272244766756109104189073486248650325626475682933585013806756461280515630nat);
    e = lemma_order_step(e, 636272244766756109104189073486248650325626475682933585013806756461280515630nat, 1, 89181497043383948232571715253496606809834672526873355138727424965532339899459nat);
    e = lemma_order_step(e, 89181497043383948232571715253496606809834672526873355138727424965532339899459nat, 1, 28136322931403672193787078660025857034973118798943276421345647839506696404573nat);
    e = lemma_order_step(e, 28136322931403672193787078660025857034973118798943276421345647839506696404573nat, 2, 12845546074218055779780124979187167792351273925247880574919640710334779015036nat);
    e = lemma_order_step(e, 12845546074218055779780124979187167792351273925247880574919640710334779015036nat, 2, 70833986443555133131911370456306611722674803535026061169134555478967091158532nat);
    e = lemma_order_step(e, 70833986443555133131911370456306611722674803535026061169134555478967091158532nat, 0, 8930754296719829423373558536957285480645502146622767050230832619866989247219nat);
    e = lemma_order_step(e, 8930754296719829423373558536957285480645502146622767050230832619866989247219nat, 0, 23690185299238034957864059197347250258717975055404370411976727218936621580091nat);
    e = lemma_order_step(e, 23690185299238034957864059197347250258717975055404370411976727218936621580091nat, 2, 89061615288305167790842492689362973627918382085929892971321671677942477965325nat);
    e = lemma_order_step(e, 89061615288305167790842492689362973627918382085929892971321671677942477965325nat, 2, 55155770078153815437855897913150664544960217159116229830919745992748283242410nat);
    e = lemma_order_step(e, 55155770078153815437855897913150664544960217159116229830919745992748283242410nat, 0, 2539959907464221085043021734758017023473579567696948256228860134116118605272nat);
    e = lemma_order_step(e, 2539959907464221085043021734758017023473579567696948256228860134116118605272nat, 2, 3786031142681211112110039498861455132019129980589867731775961412864183323145nat);
    e = lemma_order_step(e, 3786031142681211112110039498861455132019129980589867731775961412864183323145nat, 0, 11424050786214672715035279486443969093237826715146865835809134178431650422085nat);
    e = lemma_order_step(e, 11424050786214672715035279486443969093237826715146865835809134178431650422085nat, 3, 52192969322527710548759543655023482402351300630555316219380167880809525964127nat);
    e = lemma_order_step(e, 52192969322527710548759543655023482402351300630555316219380167880809525964127nat, 1, 31096518006412353907629203626738697259731527800909168742123735247262395615014nat);
    e = lemma_order_step(e, 31096518006412353907629203626738697259731527800909168742123735247262395615014nat, 3, 75602140317623980067140381312613672757143286354920902295604389203891839734914nat);
    e = lemma_order_step(e, 75602140317623980067140381312613672757143286354920902295604389203891839734914nat, 1, 98218511356537140493161321387518846389854333398486247812192091658190611215742nat);
    e = lemma_order_step(e, 98218511356537140493161321387518846389854333398486247812192091658190611215742nat, 0, 16256970119387506777438167108632488256106115038175440731663547204404546223270nat);
    e = lemma_order_step(e, 16256970119387506777438167108632488256106115038175440731663547204404546223270nat, 2, 65259573482248674251164273993050239917035204477520968659424140492164552817450nat);
    e = lemma_order_step(e, 65259573482248674251164273993050239917035204477520968659424140492164552817450nat, 2, 74810330844229638060164476433262674088581742923166032101183337954601914723721nat);
    e = lemma_order_step(e, 74810330844229638060164476433262674088581742923166032101183337954601914723721nat, 0, 86284194913865802894251301839551218743791428726122090749816748399757912818977nat);
    e = lemma_order_step(e, 86284194913865802894251301839551218743791428726122090749816748399757912818977nat, 0, 64236058546247319747007516112241274334384787917883420647938125871311315639568nat);
    e = lemma_order_step(e, 64236058546247319747007516112241274334384787917883420647938125871311315639568nat, 0, 23098692157029601602305538238430759503135226966686033406746229537943451956091nat);
    e = lemma_order_step(e, 23098692157029601602305538238430759503135226966686033406746229537943451956091nat, 0, 26140347279054683206376115337882423429527578980193878060265571677850172642972nat);
    e = lemma_order_step(e, 26140347279054683206376115337882423429527578980193878060265571677850172642972nat, 3, 62233293400864667291092331594236552150568320272412842375632308034618003427704nat);
    e = lemma_order_step(e, 62233293400864667291092331594236552150568320272412842375632308034618003427704nat, 0, 51776717231172898791044380041432675341665285315364608525147574004627592842137nat);
    e = lemma_order_step(e, 51776717231172898791044380041432675341665285315364608525147574004627592842137nat, 3, 39914169892276656024016214478266300785307052210493357957975326959317857817041nat);
    e = lemma_order_step(e, 39914169892276656024016214478266300785307052210493357957975326959317857817041nat, 1, 41213774843786621193743375981555312342826220195269955452452790053139459242706nat);
    e = lemma_order_step(e, 41213774843786621193743375981555312342826220195269955452452790053139459242706nat, 0, 15585778900651883161489163135087774119767105502692799384978280137889313184991nat);
    e = lemma_order_step(e, 15585778900651883161489163135087774119767105502692799384978280137889313184991nat, 3, 58351536043494564975226602101201146759059273165528048306746168417563937413790nat);
    e = lemma_order_step(e, 58351536043494564975226602101201146759059273165528048306746168417563937413790nat, 3, 22185251437734739311254606889196141625076598063809285091540061215866414914706nat);
    e = lemma_order_step(e, 22185251437734739311254606889196141625076598063809285091540061215866414914706nat, 0, 20763862921486654957122761094909300225059516682897307354852787977222171528424nat);
    e = lemma_order_step(e, 20763862921486654957122761094909300225059516682897307354852787977222171528424nat, 3, 60463523146488511622867491218743119507175260656156829028665061371592825108533nat);
    e = lemma_order_step(e, 60463523146488511622867491218743119507175260656156829028665061371592825108533nat, 1, 61732084579568883751764161837762926898000286719852526549170941760917457845866nat);
    e = lemma_order_step(e, 61732084579568883751764161837762926898000286719852526549170941760917457845866nat, 1, 57025683220405632689524482275431058164482056767415411819293862450757423464998nat);
    e = lemma_order_step(e, 57025683220405632689524482275431058164482056767415411819293862450757423464998nat, 3, 55257701580756761272781804539600177493482341576149772991574235266948811986697nat);
    e = lemma_order_step(e, 55257701580756761272781804539600177493482341576149772991574235266948811986697nat, 1, 44309103142076503433863035772193150930382917076048413470614359844669787114470nat);
    e = lemma_order_step(e, 44309103142076503433863035772193150930382917076048413470614359844669787114470nat, 2, 36045028783651824233958879382420170523208184109003256829930029112798444688047nat);
    e = lemma_order_step(e, 36045028783651824233958879382420170523208184109003256829930029112798444688047nat, 1, 23219903606650411360815465803800954108853043536440889456890759143489535257965nat);
    e = lemma_order_step(e, 23219903606650411360815465803800954108853043536440889456890759143489535257965nat, 0, 37362532668465865691128074562658091702075055996844706779224469968021349418818nat);
    e = lemma_order_step(e, 37362532668465865691128074562658091702075055996844706779224469968021349418818nat, 3, 87414860197585440150969598941992075700906728300901482931023568632260039071478nat);
    e = lemma_order_step(e, 87414860197585440150969598941992075700906728300901482931023568632260039071478nat, 2, 89154888077543458636725570000425412961651420736740104826254438783533199138136nat);
    e = lemma_order_step(e, 89154888077543458636725570000425412961651420736740104826254438783533199138136nat, 3, 1nat);
}

} // verus!
