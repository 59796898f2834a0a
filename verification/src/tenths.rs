//! The table behind the count axis: the ten tenths of a decade, to twenty digits, and
//! the proof that each entry is what it is said to be.

use crate::scale::{is_step_value, lemma_pow_base_increases};
use vstd::arithmetic::div_mod::lemma_fundamental_div_mod;
use vstd::arithmetic::power::{
    lemma_pow1, lemma_pow_adds, lemma_pow_distributes, lemma_pow_multiplies, lemma_pow_positive,
    pow,
};
use vstd::prelude::*;

verus! {

/// `10^e`, written out for the powers that the table needs.
pub open spec fn power_of_ten(e: nat) -> nat
    decreases e,
{
    if e == 0 {
        1
    } else {
        10 * power_of_ten((e - 1) as nat)
    }
}

/// `10^(19 + r/10)` rounded down, for the ten tenths `r` of a decade.
pub open spec fn tenth(r: nat) -> nat {
    if r == 0 {
        10000000000000000000
    } else if r == 1 {
        12589254117941672104
    } else if r == 2 {
        15848931924611134852
    } else if r == 3 {
        19952623149688796013
    } else if r == 4 {
        25118864315095801110
    } else if r == 5 {
        31622776601683793319
    } else if r == 6 {
        39810717055349725077
    } else if r == 7 {
        50118723362727228500
    } else if r == 8 {
        63095734448019324943
    } else {
        79432823472428150206
    }
}

/// The tenth power of `x`, by way of its square, its fourth and its fifth power.
proof fn lemma_tenth_power(x: int, x2: int, x4: int, x5: int, x10: int)
    requires
        x2 == x * x,
        x4 == x2 * x2,
        x5 == x4 * x,
        x10 == x5 * x5,
    ensures
        pow(x, 10) == x10,
{
    lemma_pow1(x);
    lemma_pow_adds(x, 1, 1);
    lemma_pow_adds(x, 2, 2);
    lemma_pow_adds(x, 4, 1);
    lemma_pow_adds(x, 5, 5);
}

/// The powers of ten that are written out are powers of ten.
proof fn lemma_small_power_of_ten(e: nat)
    requires
        e <= 19,
    ensures
        pow(10, e) == power_of_ten(e),
    decreases e,
{
    reveal(pow);
    if e > 0 {
        lemma_small_power_of_ten((e - 1) as nat);
    }
}

/// The powers of ten up to the nineteenth have at most twenty digits.
proof fn lemma_power_of_ten_bound(e: nat)
    requires
        e <= 19,
    ensures
        1 <= power_of_ten(e) <= 10000000000000000000,
        e == 19 ==> power_of_ten(e) == 10000000000000000000,
{
    reveal_with_fuel(power_of_ten, 21);
}

/// `10^190`, written out.
proof fn lemma_decade_190()
    ensures
        pow(10, 190) == 10000000000000000000000000000000000000000000000000000000000000000000000000000000000000000000000000000000000000000000000000000000000000000000000000000000000000000000000000000000000000000000000int,
{
    lemma_small_power_of_ten(19);
    lemma_power_of_ten_bound(19);
    lemma_tenth_power(
        10000000000000000000int,
        100000000000000000000000000000000000000int,
        10000000000000000000000000000000000000000000000000000000000000000000000000000int,
        100000000000000000000000000000000000000000000000000000000000000000000000000000000000000000000000int,
        10000000000000000000000000000000000000000000000000000000000000000000000000000000000000000000000000000000000000000000000000000000000000000000000000000000000000000000000000000000000000000000000int,
    );
    lemma_pow_multiplies(10, 19, 10);
}

/// The entry for 0 tenths: its tenth power is at most `10^190`, that of the next
/// number is more.
proof fn lemma_tenth_0()
    ensures
        is_step_value(tenth(0), 190),
{
    lemma_tenth_power(
        10000000000000000000int,
        100000000000000000000000000000000000000int,
        10000000000000000000000000000000000000000000000000000000000000000000000000000int,
        100000000000000000000000000000000000000000000000000000000000000000000000000000000000000000000000int,
        10000000000000000000000000000000000000000000000000000000000000000000000000000000000000000000000000000000000000000000000000000000000000000000000000000000000000000000000000000000000000000000000int,
    );
    lemma_tenth_power(
        10000000000000000001int,
        100000000000000000020000000000000000001int,
        10000000000000000004000000000000000000600000000000000000040000000000000000001int,
        100000000000000000050000000000000000010000000000000000001000000000000000000050000000000000000001int,
        10000000000000000010000000000000000004500000000000000001200000000000000000210000000000000000025200000000000000002100000000000000000120000000000000000004500000000000000000100000000000000000001int,
    );
    lemma_decade_190();
    lemma_pow_adds(10, 190, 0);
    lemma_small_power_of_ten(0);
    assert(power_of_ten(0) == 1) by {
        reveal_with_fuel(power_of_ten, 11);
    }
    assert(pow(10, 190) == 10000000000000000000000000000000000000000000000000000000000000000000000000000000000000000000000000000000000000000000000000000000000000000000000000000000000000000000000000000000000000000000000int * 1);
}

/// The entry for 1 tenths: its tenth power is at most `10^191`, that of the next
/// number is more.
proof fn lemma_tenth_1()
    ensures
        is_step_value(tenth(1), 191),
{
    lemma_tenth_power(
        12589254117941672104int,
        158489319246111348514178850687451786816int,
        25118864315095801108938531646781435451540898978857614759582042396511111417856int,
        316227766016837933169804357025997656359976275613257030952340494046623131877629175861382882689024int,
        99999999999999999980972576952226083386159154157266190228535427573047933064934757797994365444231644254061899212399170777924867324511152675981845565305883360378119557248299940052882249090072576int,
    );
    lemma_tenth_power(
        12589254117941672105int,
        158489319246111348539357358923335131025int,
        25118864315095801116919580906656953857446080079394101889003428084953917550625int,
        316227766016837933295398678601476661924621556996853004224015495096021866756459011541018487815625int,
        100000000000000000060405400424654233607541445517712352688981813333472831271173562944334201575032384244865831453923877966123162462784973552625465732935903841473894656647479852055576583994140625int,
    );
    lemma_decade_190();
    lemma_pow_adds(10, 190, 1);
    lemma_small_power_of_ten(1);
    assert(power_of_ten(1) == 10) by {
        reveal_with_fuel(power_of_ten, 11);
    }
    assert(pow(10, 191) == 10000000000000000000000000000000000000000000000000000000000000000000000000000000000000000000000000000000000000000000000000000000000000000000000000000000000000000000000000000000000000000000000int * 10);
}

/// The entry for 2 tenths: its tenth power is at most `10^192`, that of the next
/// number is more.
proof fn lemma_tenth_2()
    ensures
        is_step_value(tenth(2), 192),
{
    lemma_tenth_power(
        15848931924611134852int,
        251188643150958011107837116303329061904int,
        63095734448019324943101384936166681074138811923665144449434177523560664105216int,
        999999999999999999993370615125666987165004481189983382803133673240507449052401730286546892588032int,
        999999999999999999986741230251333974330052911123778800942645791679076983140908007326993167966750162052140368915058253056854672811925324736587214781926037650545174378319229842577148338869633024int,
    );
    lemma_tenth_power(
        15848931924611134853int,
        251188643150958011139534980152551331609int,
        63095734448019324959025671758306571106392695050365033431342274415679082528881int,
        1000000000000000000308849287365763611920322122926166513253206497459828103698724429893506558189493int,
        1000000000000000000617698574731527223936032128158673057144468391676801977696820524692353836460798979624872927006058923379761494681806609884759275110785423742715122599329509976627840426095597049int,
    );
    lemma_decade_190();
    lemma_pow_adds(10, 190, 2);
    lemma_small_power_of_ten(2);
    assert(power_of_ten(2) == 100) by {
        reveal_with_fuel(power_of_ten, 11);
    }
    assert(pow(10, 192) == 10000000000000000000000000000000000000000000000000000000000000000000000000000000000000000000000000000000000000000000000000000000000000000000000000000000000000000000000000000000000000000000000int * 100);
}

/// The entry for 3 tenths: its tenth power is at most `10^193`, that of the next
/// number is more.
proof fn lemma_tenth_3()
    ensures
        is_step_value(tenth(3), 193),
{
    lemma_tenth_power(
        19952623149688796013int,
        398107170553497250749319849821524696169int,
        158489319246111348503543416261599856808634921069806394741154743377567763276561int,
        3162277660168379331583212538431034564228443735598365554266048335086024555122569926692812033151293int,
        9999999999999999997371002481929113541738681167407810992805052207703633922209069811417150820603510649856649794742935521783760394099473229987015071113663552124761771749745572907864310840227571849int,
    );
    lemma_tenth_power(
        19952623149688796014int,
        398107170553497250789225096120902288196int,
        158489319246111348535316545650571116891154351057434378030832896923028640934416int,
        3162277660168379332375659134661591306825593640378792988513530979551359000798692665079446976217824int,
        10000000000000000002382874818201836391698713936471158597228574678679149218596717745569935415857289045680108716007690142830157936265101053295416799476669335912068104961522764152075492247895294976int,
    );
    lemma_decade_190();
    lemma_pow_adds(10, 190, 3);
    lemma_small_power_of_ten(3);
    assert(power_of_ten(3) == 1000) by {
        reveal_with_fuel(power_of_ten, 11);
    }
    assert(pow(10, 193) == 10000000000000000000000000000000000000000000000000000000000000000000000000000000000000000000000000000000000000000000000000000000000000000000000000000000000000000000000000000000000000000000000int * 1000);
}

/// The entry for 4 tenths: its tenth power is at most `10^194`, that of the next
/// number is more.
proof fn lemma_tenth_4()
    ensures
        is_step_value(tenth(4), 194),
{
    lemma_tenth_power(
        25118864315095801110int,
        630957344480193249391641957152677232100int,
        398107170553497250716345606929333706563284245663231654761284776601717270410000int,
        9999999999999999998307406204104831372806615788241020036341686297246890778045500961561448155100000int,
        99999999999999999966148124082096627458997189522723216480367433579797534692629717929450424427382293417214785302669064099692773925770002437124325102948579726541623718132678133065193656010000000000int,
    );
    lemma_tenth_power(
        25118864315095801111int,
        630957344480193249441879685782868834321int,
        398107170553497250779741334627778245968715851742454291283044949521121347531041int,
        10000000000000000000297942056872317626546833142133799917668531754038704676909241472761205834786551int,
        100000000000000000005958841137446352531025432311929305704408380415670962940337995932238415417712599296486634416890771763621855753048566421579029562846998961479320583237011196999233976495730475601int,
    );
    lemma_decade_190();
    lemma_pow_adds(10, 190, 4);
    lemma_small_power_of_ten(4);
    assert(power_of_ten(4) == 10000) by {
        reveal_with_fuel(power_of_ten, 11);
    }
    assert(pow(10, 194) == 10000000000000000000000000000000000000000000000000000000000000000000000000000000000000000000000000000000000000000000000000000000000000000000000000000000000000000000000000000000000000000000000int * 10000);
}

/// The entry for 5 tenths: its tenth power is at most `10^195`, that of the next
/// number is more.
proof fn lemma_tenth_5()
    ensures
        is_step_value(tenth(5), 195),
{
    lemma_tenth_power(
        31622776601683793319int,
        999999999999999999937454230741109035761int,
        999999999999999999874908461482218071525911973252186429957984040946599176849121int,
        31622776601683793315044258222691258651527063067555461652057014926125273278098151419118049410822599int,
        999999999999999999687271153705545178844119732521864299577393635702209711287061806698168529687269375915937835269907004907061407865354994703209638967828057700619666301801683761631524753909849114801int,
    );
    lemma_tenth_power(
        31622776601683793320int,
        1000000000000000000000699783944476622400int,
        1000000000000000000001399567888953244800000489697568947260541968660112181760000int,
        31622776601683793320044258222691258651217833140983389942866796083499661721144621058098113843200000int,
        1000000000000000000003498919722383112000004896975689472605419690027946781585267406403351924909543936098927702614179356025303394866029666356082416261332876721139890314025686537427474186240000000000int,
    );
    lemma_decade_190();
    lemma_pow_adds(10, 190, 5);
    lemma_small_power_of_ten(5);
    assert(power_of_ten(5) == 100000) by {
        reveal_with_fuel(power_of_ten, 11);
    }
    assert(pow(10, 195) == 10000000000000000000000000000000000000000000000000000000000000000000000000000000000000000000000000000000000000000000000000000000000000000000000000000000000000000000000000000000000000000000000int * 100000);
}

/// The entry for 6 tenths: its tenth power is at most `10^196`, that of the next
/// number is more.
proof fn lemma_tenth_6()
    ensures
        is_step_value(tenth(6), 196),
{
    lemma_tenth_power(
        39810717055349725077int,
        1584893192461113485200092484099482655929int,
        2511886431509580111078664317872652534578777141274055924619398674102687798853041int,
        99999999999999999999683119136737404008069466263013010625567198265284085372133429173675095275409157int,
        9999999999999999999936623827347480801613993666084104173171595186845049159791681984126870682041865918818493169796128728147165532792643890188753806891325879472312934375146663741154087540033759450649int,
    );
    lemma_tenth_power(
        39810717055349725078int,
        1584893192461113485279713918210182106084int,
        2511886431509580111331047255664729834361550703138558330296671071941905829815056int,
        100000000000000000012242551294285304564093745196856466547910093410353315441997404022780805185174368int,
        10000000000000000002448510258857060912968629101564500095538760053159118648897290903589322553246920937765691769585712917341915277770336031032358651421099399280759029932424971566211371102026564199424int,
    );
    lemma_decade_190();
    lemma_pow_adds(10, 190, 6);
    lemma_small_power_of_ten(6);
    assert(power_of_ten(6) == 1000000) by {
        reveal_with_fuel(power_of_ten, 11);
    }
    assert(pow(10, 196) == 10000000000000000000000000000000000000000000000000000000000000000000000000000000000000000000000000000000000000000000000000000000000000000000000000000000000000000000000000000000000000000000000int * 1000000);
}

/// The entry for 7 tenths: its tenth power is at most `10^197`, that of the next
/// number is more.
proof fn lemma_tenth_7()
    ensures
        is_step_value(tenth(7), 197),
{
    lemma_tenth_power(
        50118723362727228500int,
        2511886431509580111069453295291212250000int,
        6309573444801932494265337151658020845484406691585927825698532074550062500000000int,
        316227766016837933194986226294515226122056860872727126599994880367649547990087055126781250000000000int,
        99999999999999999996898989478048835085685168611932606604653898765831155087152913913975933381075898128744614822919634396034239776847969684383326356122684990809473899510985351562500000000000000000000int,
    );
    lemma_tenth_power(
        50118723362727228501int,
        2511886431509580111169690742016666707001int,
        6309573444801932494768907316375687729664374923595315049977670348606257182414001int,
        316227766016837933226534093518524888594642472042811398037854274973445107278721963324578779508642501int,
        100000000000000000016851612627737631100444345197869297668412158739478615923112150582758149585268278920371999945951118349895327721485558965498045109439537538746199872322624795218891102889751823535001int,
    );
    lemma_decade_190();
    lemma_pow_adds(10, 190, 7);
    lemma_small_power_of_ten(7);
    assert(power_of_ten(7) == 10000000) by {
        reveal_with_fuel(power_of_ten, 11);
    }
    assert(pow(10, 197) == 10000000000000000000000000000000000000000000000000000000000000000000000000000000000000000000000000000000000000000000000000000000000000000000000000000000000000000000000000000000000000000000000int * 10000000);
}

/// The entry for 8 tenths: its tenth power is at most `10^198`, that of the next
/// number is more.
proof fn lemma_tenth_8()
    ensures
        is_step_value(tenth(8), 198),
{
    lemma_tenth_power(
        63095734448019324943int,
        3981071705534972507647501846381421953249int,
        15848931924611134851582927013067327573001708441266259204298789101728282341656001int,
        999999999999999999965448245745234080015444816420966481971302266517550459934654567919362856744932943int,
        999999999999999999930896491490468160032083456564014698797290276025572905485474670111124917976150866961984755156340744698558659286696789679218626396345673432211132566606394929605454564855505566641249int,
    );
    lemma_tenth_power(
        63095734448019324944int,
        3981071705534972507773693315277460603136int,
        15848931924611134852587681585671159617438778078771824016625366857972592893034496int,
        1000000000000000000044692905368289754275871337917812699947383577459117993124426404830710897625268224int,
        1000000000000000000089385810736579508553740131625884303031054221018385078292845866161262223466163980986404236050053109947285930061092664527450005366612897656093678379437988728951855840234207944114176int,
    );
    lemma_decade_190();
    lemma_pow_adds(10, 190, 8);
    lemma_small_power_of_ten(8);
    assert(power_of_ten(8) == 100000000) by {
        reveal_with_fuel(power_of_ten, 11);
    }
    assert(pow(10, 198) == 10000000000000000000000000000000000000000000000000000000000000000000000000000000000000000000000000000000000000000000000000000000000000000000000000000000000000000000000000000000000000000000000int * 100000000);
}

/// The entry for 9 tenths: its tenth power is at most `10^199`, that of the next
/// number is more.
proof fn lemma_tenth_9()
    ensures
        is_step_value(tenth(9), 199),
{
    lemma_tenth_power(
        79432823472428150206int,
        6309573444801932494249580183062897842436int,
        39810717055349725075838763387737990570013666458249550629822920230159103882414096int,
        3162277660168379331881088002706232226503141502942201422018965276763331822205572920512492306979703776int,
        9999999999999999999254932334308597003957807801317232014763189541115234050584191798013328901863640326981393185442307533024651889305822384687069293851016639563801033018076280648070771678114400708658176int,
    );
    lemma_tenth_power(
        79432823472428150207int,
        6309573444801932494408445830007754142849int,
        39810717055349725077843512322247079710012930438190184865435856866071322697836801int,
        3162277660168379332080141587982980851887347192217164097719000221137207151281248218188035696800367807int,
        10000000000000000000513857746102764214368663485767726569384885346676845857388543313789579177621690519394928397288367202535322183057016133244954321822671530951072192427516632197835703931065970481989249int,
    );
    lemma_decade_190();
    lemma_pow_adds(10, 190, 9);
    lemma_small_power_of_ten(9);
    assert(power_of_ten(9) == 1000000000) by {
        reveal_with_fuel(power_of_ten, 11);
    }
    assert(pow(10, 199) == 10000000000000000000000000000000000000000000000000000000000000000000000000000000000000000000000000000000000000000000000000000000000000000000000000000000000000000000000000000000000000000000000int * 1000000000);
}

/// Each entry of the table is the value of its step.
proof fn lemma_tenth(r: nat)
    requires
        r < 10,
    ensures
        is_step_value(tenth(r), 190 + r),
{
    if r == 0 {
        lemma_tenth_0();
    } else if r == 1 {
        lemma_tenth_1();
    } else if r == 2 {
        lemma_tenth_2();
    } else if r == 3 {
        lemma_tenth_3();
    } else if r == 4 {
        lemma_tenth_4();
    } else if r == 5 {
        lemma_tenth_5();
    } else if r == 6 {
        lemma_tenth_6();
    } else if r == 7 {
        lemma_tenth_7();
    } else if r == 8 {
        lemma_tenth_8();
    } else {
        lemma_tenth_9();
    }
}

/// Dropping the last digits of a table entry leaves the value of a lower step: with
/// `t` the value of step `190 + r`, `t / 10^(19 - q)` is the value of step `10 * q + r`.
proof fn lemma_scaled_step_value(t: nat, q: nat, r: nat)
    requires
        q <= 19,
        r < 10,
        is_step_value(t, 190 + r),
    ensures
        is_step_value(t / power_of_ten((19 - q) as nat), 10 * q + r),
{
    let e = (19 - q) as nat;
    let p = power_of_ten(e);
    lemma_small_power_of_ten(e);
    lemma_pow_positive(10, e);
    let b = t / p;
    lemma_fundamental_div_mod(t as int, p as int);
    assert(b * p <= t < (b + 1) * p) by (nonlinear_arith)
        requires
            t == p * b + (t as int % p as int),
            0 <= (t as int % p as int) < p,
    ;
    let x = pow(10, (e * 10) as nat);
    lemma_pow_multiplies(10, e, 10);
    lemma_pow_positive(10, (e * 10) as nat);
    lemma_pow_adds(10, 10 * q + r, (e * 10) as nat);
    assert(pow(10, 190 + r) == pow(10, 10 * q + r) * x);
    // From below: (b * p)^10 <= t^10 <= 10^(190 + r).
    lemma_pow_base_increases(b * p, t, 10);
    lemma_pow_distributes(b as int, p as int, 10);
    assert(pow(b as int, 10) <= pow(10, 10 * q + r)) by (nonlinear_arith)
        requires
            pow(b as int, 10) * x <= pow(10, 10 * q + r) * x,
            x > 0,
    ;
    // From above: 10^(190 + r) < (t + 1)^10 <= ((b + 1) * p)^10.
    lemma_pow_base_increases(t + 1, (b + 1) * p, 10);
    lemma_pow_distributes((b + 1) as int, p as int, 10);
    assert(pow(10, 10 * q + r) < pow((b + 1) as int, 10)) by (nonlinear_arith)
        requires
            pow(10, 10 * q + r) * x < pow((b + 1) as int, 10) * x,
            x > 0,
    ;
}

/// The entry of the table for `r` tenths.
fn tenth_entry(r: u32) -> (t: u128)
    requires
        r < 10,
    ensures
        t == tenth(r as nat),
{
    if r == 0 {
        10000000000000000000
    } else if r == 1 {
        12589254117941672104
    } else if r == 2 {
        15848931924611134852
    } else if r == 3 {
        19952623149688796013
    } else if r == 4 {
        25118864315095801110
    } else if r == 5 {
        31622776601683793319
    } else if r == 6 {
        39810717055349725077
    } else if r == 7 {
        50118723362727228500
    } else if r == 8 {
        63095734448019324943
    } else {
        79432823472428150206
    }
}

/// `10^e`.
fn ten_to_the(e: u32) -> (p: u128)
    requires
        e <= 19,
    ensures
        p == power_of_ten(e as nat),
        p >= 1,
{
    let mut p: u128 = 1;
    let mut i: u32 = 0;
    while i < e
        invariant
            i <= e <= 19,
            p == power_of_ten(i as nat),
        decreases e - i,
    {
        proof {
            lemma_power_of_ten_bound((i + 1) as nat);
        }
        p = p * 10;
        i = i + 1;
    }
    proof {
        lemma_power_of_ten_bound(e as nat);
    }
    p
}

/// `10^(k/10)` rounded down, as far as the table goes: for fewer than 200 tenths.
pub(crate) fn value_of_step(k: u32) -> (b: u128)
    requires
        k < 200,
    ensures
        is_step_value(b as nat, k as nat),
        b == tenth((k % 10) as nat) / power_of_ten((19 - k / 10) as nat),
{
    let q = k / 10;
    let r = k % 10;
    let t = tenth_entry(r);
    let p = ten_to_the(19 - q);
    proof {
        lemma_tenth(r as nat);
        lemma_scaled_step_value(t as nat, q as nat, r as nat);
    }
    t / p
}

} // verus!
