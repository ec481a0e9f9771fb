//! The evaluation domain: a multiplicative subgroup of roots of unity of a
//! power-of-two size, together with the scalars every consumer needs.
use vstd::prelude::*;
use vstd::arithmetic::power2::{
    pow2, lemma_pow2_adds, lemma_pow2_pos, lemma_pow2_strictly_increases, lemma2_to64, lemma2_to64_rest,
};
use crate::points::{G1Point, pviews, g1_add_s, g1_sub_s, g1_mul_s, g1_add, g1_sub, g1_mul};
use crate::scalar::{
    Scalar, fr_m, mul_f, inv_f, pow_f, lemma_mul_f_comm, lemma_mul_f_one, lemma_inv_f_is,
    lemma_pow_f_add, lemma_pow_f_mul, lemma_pow_f_one, lemma_pow_f_base_one, lemma_pow_f_bound,
    scalar_mul, scalar_inv, scalar_pow,
};

verus! {

/// Whether a number is a power of two.
pub open spec fn is_pow_two(n: int) -> bool
    decreases n,
{
    if n <= 0 {
        false
    } else if n == 1 {
        true
    } else {
        n % 2 == 0 && is_pow_two(n / 2)
    }
}

/// The fixed primitive root of unity of maximal power-of-two order (two to the
/// field's two-adicity, which is 32).
pub open spec fn root_of_unity_val() -> int {
    10238227357739495823651030575849232062558860180284477541189508159991286009131int
}

/// The result of squaring the primitive root `j` times: its power of `2^j`.
pub open spec fn root_pow2_val(j: nat) -> int
    decreases j,
{
    if j == 0 {
        root_of_unity_val()
    } else {
        let p = root_pow2_val((j - 1) as nat);
        mul_f(p, p)
    }
}

/// Repeated squaring computes the powers of two of the primitive root.
pub proof fn lemma_root_pow2(j: nat)
    ensures
        pow_f(root_of_unity_val(), pow2(j)) == root_pow2_val(j),
        0 <= root_pow2_val(j) < fr_m(),
    decreases j,
{
    lemma2_to64();
    if j == 0 {
        lemma_pow_f_one(root_of_unity_val());
    } else {
        lemma_root_pow2((j - 1) as nat);
        lemma_pow2_adds((j - 1) as nat, 1);
        assert(pow2(j) == pow2((j - 1) as nat) + pow2((j - 1) as nat)) by {
            assert(pow2(j) == pow2((j - 1) as nat) * pow2(1));
        }
        lemma_pow_f_add(root_of_unity_val(), pow2((j - 1) as nat), pow2((j - 1) as nat));
    }
}

/// The primitive root's power of `2^32` is one, and its power of `2^31` is
/// minus one, so its order is exactly `2^32`.
proof fn lemma_root_chain_values()
    ensures
        root_pow2_val(32) == 1,
        root_pow2_val(31) == fr_m() - 1,
{
    assert(root_pow2_val(0) == 10238227357739495823651030575849232062558860180284477541189508159991286009131int);
    assert(root_pow2_val(1) == 34070893824967080313820779135880760772780807222436853681508667398599787661631int) by {
        assert(root_pow2_val(1) == mul_f(root_pow2_val(0), root_pow2_val(0)));
        assert(mul_f(10238227357739495823651030575849232062558860180284477541189508159991286009131int, 10238227357739495823651030575849232062558860180284477541189508159991286009131int) == 34070893824967080313820779135880760772780807222436853681508667398599787661631int);
    }
    assert(root_pow2_val(2) == 20094891866007995289136270587723853997043774683345353712639419774914899074390int) by {
        assert(root_pow2_val(2) == mul_f(root_pow2_val(1), root_pow2_val(1)));
        assert(mul_f(34070893824967080313820779135880760772780807222436853681508667398599787661631int, 34070893824967080313820779135880760772780807222436853681508667398599787661631int) == 20094891866007995289136270587723853997043774683345353712639419774914899074390int);
    }
    assert(root_pow2_val(3) == 5660829372603820951332104046316074966592589311213397907344198301300676239643int) by {
        assert(root_pow2_val(3) == mul_f(root_pow2_val(2), root_pow2_val(2)));
        assert(mul_f(20094891866007995289136270587723853997043774683345353712639419774914899074390int, 20094891866007995289136270587723853997043774683345353712639419774914899074390int) == 5660829372603820951332104046316074966592589311213397907344198301300676239643int);
    }
    assert(root_pow2_val(4) == 37480612446576615530266821837655054090426372233228960378061628060638903214217int) by {
        assert(root_pow2_val(4) == mul_f(root_pow2_val(3), root_pow2_val(3)));
        assert(mul_f(5660829372603820951332104046316074966592589311213397907344198301300676239643int, 5660829372603820951332104046316074966592589311213397907344198301300676239643int) == 37480612446576615530266821837655054090426372233228960378061628060638903214217int);
    }
    assert(root_pow2_val(5) == 15932505959375582308231798849995567447410469395474322018100309999481287547373int) by {
        assert(root_pow2_val(5) == mul_f(root_pow2_val(4), root_pow2_val(4)));
        assert(mul_f(37480612446576615530266821837655054090426372233228960378061628060638903214217int, 37480612446576615530266821837655054090426372233228960378061628060638903214217int) == 15932505959375582308231798849995567447410469395474322018100309999481287547373int);
    }
    assert(root_pow2_val(6) == 4541622677469846713471916119560591929733417256448031920623614406126544048514int) by {
        assert(root_pow2_val(6) == mul_f(root_pow2_val(5), root_pow2_val(5)));
        assert(mul_f(15932505959375582308231798849995567447410469395474322018100309999481287547373int, 15932505959375582308231798849995567447410469395474322018100309999481287547373int) == 4541622677469846713471916119560591929733417256448031920623614406126544048514int);
    }
    assert(root_pow2_val(7) == 734830308204920577628633053915970695663549910788964686411700880930222744862int) by {
        assert(root_pow2_val(7) == mul_f(root_pow2_val(6), root_pow2_val(6)));
        assert(mul_f(4541622677469846713471916119560591929733417256448031920623614406126544048514int, 4541622677469846713471916119560591929733417256448031920623614406126544048514int) == 734830308204920577628633053915970695663549910788964686411700880930222744862int);
    }
    assert(root_pow2_val(8) == 18596002123094854211120822350746157678791770803088570110573239418060655130524int) by {
        assert(root_pow2_val(8) == mul_f(root_pow2_val(7), root_pow2_val(7)));
        assert(mul_f(734830308204920577628633053915970695663549910788964686411700880930222744862int, 734830308204920577628633053915970695663549910788964686411700880930222744862int) == 18596002123094854211120822350746157678791770803088570110573239418060655130524int);
    }
    assert(root_pow2_val(9) == 52167942466760591552294394977846462646742207006759917080697723404762651336366int) by {
        assert(root_pow2_val(9) == mul_f(root_pow2_val(8), root_pow2_val(8)));
        assert(mul_f(18596002123094854211120822350746157678791770803088570110573239418060655130524int, 18596002123094854211120822350746157678791770803088570110573239418060655130524int) == 52167942466760591552294394977846462646742207006759917080697723404762651336366int);
    }
    assert(root_pow2_val(10) == 4859563557044021881916617240989566298388494151979623102977292742331120628579int) by {
        assert(root_pow2_val(10) == mul_f(root_pow2_val(9), root_pow2_val(9)));
        assert(mul_f(52167942466760591552294394977846462646742207006759917080697723404762651336366int, 52167942466760591552294394977846462646742207006759917080697723404762651336366int) == 4859563557044021881916617240989566298388494151979623102977292742331120628579int);
    }
    assert(root_pow2_val(11) == 32468834368094611004052562760214251466632493208153926274007662173556188291130int) by {
        assert(root_pow2_val(11) == mul_f(root_pow2_val(10), root_pow2_val(10)));
        assert(mul_f(4859563557044021881916617240989566298388494151979623102977292742331120628579int, 4859563557044021881916617240989566298388494151979623102977292742331120628579int) == 32468834368094611004052562760214251466632493208153926274007662173556188291130int);
    }
    assert(root_pow2_val(12) == 1755840822790712607783180844474754741366353396308200820563736496551326485835int) by {
        assert(root_pow2_val(12) == mul_f(root_pow2_val(11), root_pow2_val(11)));
        assert(mul_f(32468834368094611004052562760214251466632493208153926274007662173556188291130int, 32468834368094611004052562760214251466632493208153926274007662173556188291130int) == 1755840822790712607783180844474754741366353396308200820563736496551326485835int);
    }
    assert(root_pow2_val(13) == 37115000097562964541269718788523040559386243094666416358585267518228781043101int) by {
        assert(root_pow2_val(13) == mul_f(root_pow2_val(12), root_pow2_val(12)));
        assert(mul_f(1755840822790712607783180844474754741366353396308200820563736496551326485835int, 1755840822790712607783180844474754741366353396308200820563736496551326485835int) == 37115000097562964541269718788523040559386243094666416358585267518228781043101int);
    }
    assert(root_pow2_val(14) == 20439484849038267462774237595151440867617792718791690563928621375157525968123int) by {
        assert(root_pow2_val(14) == mul_f(root_pow2_val(13), root_pow2_val(13)));
        assert(mul_f(37115000097562964541269718788523040559386243094666416358585267518228781043101int, 37115000097562964541269718788523040559386243094666416358585267518228781043101int) == 20439484849038267462774237595151440867617792718791690563928621375157525968123int);
    }
    assert(root_pow2_val(15) == 15495926509001846844474268026226183818445427694968626800913907911890390421264int) by {
        assert(root_pow2_val(15) == mul_f(root_pow2_val(14), root_pow2_val(14)));
        assert(mul_f(20439484849038267462774237595151440867617792718791690563928621375157525968123int, 20439484849038267462774237595151440867617792718791690563928621375157525968123int) == 15495926509001846844474268026226183818445427694968626800913907911890390421264int);
    }
    assert(root_pow2_val(16) == 15076889834420168339092859836519192632846122361203618639585008852351569017005int) by {
        assert(root_pow2_val(16) == mul_f(root_pow2_val(15), root_pow2_val(15)));
        assert(mul_f(15495926509001846844474268026226183818445427694968626800913907911890390421264int, 15495926509001846844474268026226183818445427694968626800913907911890390421264int) == 15076889834420168339092859836519192632846122361203618639585008852351569017005int);
    }
    assert(root_pow2_val(17) == 22872204467218851938836547481240843888453165451755431061227190987689039608686int) by {
        assert(root_pow2_val(17) == mul_f(root_pow2_val(16), root_pow2_val(16)));
        assert(mul_f(15076889834420168339092859836519192632846122361203618639585008852351569017005int, 15076889834420168339092859836519192632846122361203618639585008852351569017005int) == 22872204467218851938836547481240843888453165451755431061227190987689039608686int);
    }
    assert(root_pow2_val(18) == 39072540533732477250409069030641316533649120504872707460480262653418090977761int) by {
        assert(root_pow2_val(18) == mul_f(root_pow2_val(17), root_pow2_val(17)));
        assert(mul_f(22872204467218851938836547481240843888453165451755431061227190987689039608686int, 22872204467218851938836547481240843888453165451755431061227190987689039608686int) == 39072540533732477250409069030641316533649120504872707460480262653418090977761int);
    }
    assert(root_pow2_val(19) == 32731401973776920074999878620293785439674386180695720638377027142500196583783int) by {
        assert(root_pow2_val(19) == mul_f(root_pow2_val(18), root_pow2_val(18)));
        assert(mul_f(39072540533732477250409069030641316533649120504872707460480262653418090977761int, 39072540533732477250409069030641316533649120504872707460480262653418090977761int) == 32731401973776920074999878620293785439674386180695720638377027142500196583783int);
    }
    assert(root_pow2_val(20) == 39033254847818212395286706435128746857159659164139250548781411570340225835782int) by {
        assert(root_pow2_val(20) == mul_f(root_pow2_val(19), root_pow2_val(19)));
        assert(mul_f(32731401973776920074999878620293785439674386180695720638377027142500196583783int, 32731401973776920074999878620293785439674386180695720638377027142500196583783int) == 39033254847818212395286706435128746857159659164139250548781411570340225835782int);
    }
    assert(root_pow2_val(21) == 49307615728544765012166121802278658070711169839041683575071795236746050763237int) by {
        assert(root_pow2_val(21) == mul_f(root_pow2_val(20), root_pow2_val(20)));
        assert(mul_f(39033254847818212395286706435128746857159659164139250548781411570340225835782int, 39033254847818212395286706435128746857159659164139250548781411570340225835782int) == 49307615728544765012166121802278658070711169839041683575071795236746050763237int);
    }
    assert(root_pow2_val(22) == 22781213702924172180523978385542388841346373992886390990881355510284839737428int) by {
        assert(root_pow2_val(22) == mul_f(root_pow2_val(21), root_pow2_val(21)));
        assert(mul_f(49307615728544765012166121802278658070711169839041683575071795236746050763237int, 49307615728544765012166121802278658070711169839041683575071795236746050763237int) == 22781213702924172180523978385542388841346373992886390990881355510284839737428int);
    }
    assert(root_pow2_val(23) == 4214636447306890335450803789410475782380792963881561516561680164772024173390int) by {
        assert(root_pow2_val(23) == mul_f(root_pow2_val(22), root_pow2_val(22)));
        assert(mul_f(22781213702924172180523978385542388841346373992886390990881355510284839737428int, 22781213702924172180523978385542388841346373992886390990881355510284839737428int) == 4214636447306890335450803789410475782380792963881561516561680164772024173390int);
    }
    assert(root_pow2_val(24) == 36007022166693598376559747923784822035233416720563672082740011604939309541707int) by {
        assert(root_pow2_val(24) == mul_f(root_pow2_val(23), root_pow2_val(23)));
        assert(mul_f(4214636447306890335450803789410475782380792963881561516561680164772024173390int, 4214636447306890335450803789410475782380792963881561516561680164772024173390int) == 36007022166693598376559747923784822035233416720563672082740011604939309541707int);
    }
    assert(root_pow2_val(25) == 47309214877430199588914062438791732591241783999377560080318349803002842391998int) by {
        assert(root_pow2_val(25) == mul_f(root_pow2_val(24), root_pow2_val(24)));
        assert(mul_f(36007022166693598376559747923784822035233416720563672082740011604939309541707int, 36007022166693598376559747923784822035233416720563672082740011604939309541707int) == 47309214877430199588914062438791732591241783999377560080318349803002842391998int);
    }
    assert(root_pow2_val(26) == 31519469946562159605140591558550197856588417350474800936898404023113662197331int) by {
        assert(root_pow2_val(26) == mul_f(root_pow2_val(25), root_pow2_val(25)));
        assert(mul_f(47309214877430199588914062438791732591241783999377560080318349803002842391998int, 47309214877430199588914062438791732591241783999377560080318349803002842391998int) == 31519469946562159605140591558550197856588417350474800936898404023113662197331int);
    }
    assert(root_pow2_val(27) == 36581797046584068049060372878520385032448812009597153775348195406694427778894int) by {
        assert(root_pow2_val(27) == mul_f(root_pow2_val(26), root_pow2_val(26)));
        assert(mul_f(31519469946562159605140591558550197856588417350474800936898404023113662197331int, 31519469946562159605140591558550197856588417350474800936898404023113662197331int) == 36581797046584068049060372878520385032448812009597153775348195406694427778894int);
    }
    assert(root_pow2_val(28) == 14788168760825820622209131888203028446852016562542525606630160374691593895118int) by {
        assert(root_pow2_val(28) == mul_f(root_pow2_val(27), root_pow2_val(27)));
        assert(mul_f(36581797046584068049060372878520385032448812009597153775348195406694427778894int, 36581797046584068049060372878520385032448812009597153775348195406694427778894int) == 14788168760825820622209131888203028446852016562542525606630160374691593895118int);
    }
    assert(root_pow2_val(29) == 23674694431658770659612952115660802947967373701506253797663184111817857449850int) by {
        assert(root_pow2_val(29) == mul_f(root_pow2_val(28), root_pow2_val(28)));
        assert(mul_f(14788168760825820622209131888203028446852016562542525606630160374691593895118int, 14788168760825820622209131888203028446852016562542525606630160374691593895118int) == 23674694431658770659612952115660802947967373701506253797663184111817857449850int);
    }
    assert(root_pow2_val(30) == 3465144826073652318776269530687742778270252468765361963008int) by {
        assert(root_pow2_val(30) == mul_f(root_pow2_val(29), root_pow2_val(29)));
        assert(mul_f(23674694431658770659612952115660802947967373701506253797663184111817857449850int, 23674694431658770659612952115660802947967373701506253797663184111817857449850int) == 3465144826073652318776269530687742778270252468765361963008int);
    }
    assert(root_pow2_val(31) == 52435875175126190479447740508185965837690552500527637822603658699938581184512int) by {
        assert(root_pow2_val(31) == mul_f(root_pow2_val(30), root_pow2_val(30)));
        assert(mul_f(3465144826073652318776269530687742778270252468765361963008int, 3465144826073652318776269530687742778270252468765361963008int) == 52435875175126190479447740508185965837690552500527637822603658699938581184512int);
    }
    assert(root_pow2_val(32) == 1int) by {
        assert(root_pow2_val(32) == mul_f(root_pow2_val(31), root_pow2_val(31)));
        assert(mul_f(52435875175126190479447740508185965837690552500527637822603658699938581184512int, 52435875175126190479447740508185965837690552500527637822603658699938581184512int) == 1int);
    }
    assert(fr_m() - 1 == 52435875175126190479447740508185965837690552500527637822603658699938581184512int);
}

/// No power of two of the primitive root vanishes, up to the two-adicity.
proof fn lemma_root_pow2_nonzero(j: nat)
    requires
        j <= 32,
    ensures
        root_pow2_val(j) != 0,
    decreases 32 - j,
{
    if j == 32 {
        lemma_root_chain_values();
    } else {
        lemma_root_pow2_nonzero(j + 1);
        if root_pow2_val(j) == 0 {
            assert(root_pow2_val(j + 1) == mul_f(0, 0));
            assert(mul_f(0, 0) == 0);
        }
    }
}

/// Every positive number is a power of two times an odd number.
proof fn lemma_split_pow2(e: nat) -> (r: (nat, nat))
    requires
        e >= 1,
    ensures
        e == pow2(r.0) * r.1,
        r.1 % 2 == 1,
        r.1 >= 1,
        pow2(r.0) <= e,
    decreases e,
{
    lemma2_to64();
    if e % 2 == 1 {
        assert(pow2(0) == 1);
        assert(e == pow2(0) * e) by (nonlinear_arith)
            requires
                pow2(0) == 1,
        ;
        (0, e)
    } else {
        let half = lemma_split_pow2(e / 2);
        lemma_pow2_adds(half.0, 1);
        lemma_pow2_pos(half.0);
        let p = pow2(half.0);
        let q = pow2(half.0 + 1);
        let ehalf = e / 2;
        assert(ehalf == p * half.1);
        assert(e == 2 * ehalf);
        assert(q == 2 * p);
        assert(e == q * half.1) by (nonlinear_arith)
            requires
                e == 2 * ehalf,
                ehalf == p * half.1,
                q == 2 * p,
        ;
        assert(q <= e) by (nonlinear_arith)
            requires
                e == q * half.1,
                half.1 >= 1,
                q >= 1,
        ;
        assert(e == pow2(half.0 + 1) * half.1);
        (half.0 + 1, half.1)
    }
}

/// An odd power of minus one is minus one.
proof fn lemma_neg_one_pow_odd(t: nat)
    requires
        t % 2 == 1,
    ensures
        pow_f(fr_m() - 1, t) == fr_m() - 1,
    decreases t,
{
    if t == 1 {
        lemma_pow_f_one(fr_m() - 1);
    } else {
        lemma_neg_one_pow_odd((t - 2) as nat);
        assert(fr_m() - 1
            == 52435875175126190479447740508185965837690552500527637822603658699938581184512int);
        assert(mul_f(
            52435875175126190479447740508185965837690552500527637822603658699938581184512int,
            52435875175126190479447740508185965837690552500527637822603658699938581184512int,
        ) == 1);
        assert(pow_f(fr_m() - 1, (t - 1) as nat) == mul_f(fr_m() - 1, pow_f(fr_m() - 1, (t
            - 2) as nat)));
        lemma_mul_f_one(fr_m() - 1);
        assert(pow_f(fr_m() - 1, t) == mul_f(fr_m() - 1, 1));
    }
}

/// The primitive root has no order below `2^32`: none of its powers between
/// one and `2^32` (exclusive) is one.
pub proof fn lemma_root_order(e: nat)
    requires
        1 <= e < pow2(32),
    ensures
        pow_f(root_of_unity_val(), e) != 1,
{
    lemma2_to64();
    let r = root_of_unity_val();
    let (s, t) = lemma_split_pow2(e);
    if s >= 32 {
        lemma_pow2_strictly_increases(31, s);
        assert(pow2(s) >= pow2(32)) by {
            if s > 32 {
                lemma_pow2_strictly_increases(32, s);
            }
        }
        assert(false);
    }
    if pow_f(r, e) == 1 {
        let f = pow2((31 - s) as nat);
        lemma_pow2_pos((31 - s) as nat);
        // Raising the assumed-trivial power by f lands on the power 2^31 * t.
        lemma_pow_f_mul(r, e, f);
        lemma_pow_f_base_one(f);
        assert(pow_f(r, e * f) == 1);
        lemma_pow2_adds(s, (31 - s) as nat);
        assert(e * f == pow2(31) * t) by (nonlinear_arith)
            requires
                e == pow2(s) * t,
                f == pow2((31 - s) as nat),
                pow2(s) * pow2((31 - s) as nat) == pow2(31),
        ;
        lemma_pow_f_mul(r, pow2(31), t);
        lemma_root_pow2(31);
        lemma_root_chain_values();
        assert(pow_f(r, pow2(31) * t) == pow_f(fr_m() - 1, t));
        lemma_neg_one_pow_odd(t);
        assert(1 == fr_m() - 1);
        assert(false);
    }
}

/// An evaluation domain: the ordered roots of unity of a power-of-two size,
/// with the domain size, the generator, and their inverses as field elements.
#[derive(Clone, Debug)]
pub struct Domain {
    /// The roots of unity, in generator-power order.
    pub roots: Vec<Scalar>,
    /// The domain size as a field element.
    pub domain_size: Scalar,
    /// The inverse of the domain size as a field element.
    pub domain_size_inv: Scalar,
    /// The generator of the domain: an element of order exactly the size.
    pub generator: Scalar,
    /// The inverse of the generator, used by the inverse transform.
    pub generator_inv: Scalar,
}

impl Domain {
    /// What a correctly constructed domain satisfies: the roots are the
    /// consecutive powers of a generator of order exactly the domain size, and
    /// the cached scalars are what they claim to be.
    pub open spec fn wf(&self) -> bool {
        let n = self.roots@.len() as int;
        &&& 1 <= n <= 0x100000000
        &&& is_pow_two(n)
        &&& self.generator.wf()
        &&& self.generator.val() != 0
        &&& pow_f(self.generator.val(), n as nat) == 1
        &&& forall|d: int| 0 < d < n ==> #[trigger] pow_f(self.generator.val(), d as nat) != 1
        &&& forall|i: int| 0 <= i < n ==> (#[trigger] self.roots@[i]).wf()
        &&& forall|i: int|
            0 <= i < n ==> (#[trigger] self.roots@[i]).val() == pow_f(
                self.generator.val(),
                i as nat,
            )
        &&& self.generator_inv.wf()
        &&& mul_f(self.generator.val(), self.generator_inv.val()) == 1
        &&& self.generator_inv.val() == inv_f(self.generator.val())
        &&& self.domain_size.wf()
        &&& self.domain_size.val() == n
        &&& self.domain_size_inv.wf()
        &&& mul_f(self.domain_size.val(), self.domain_size_inv.val()) == 1
        &&& self.domain_size_inv.val() == inv_f(n)
    }

    /// Builds the domain of the least power-of-two size at least `size`.
    /// The required subgroup order may not exceed the field's two-adicity,
    /// two to the thirty-second.
    pub fn new(size: usize) -> (d: Domain)
        requires
            size <= 0x100000000,
            0x100000000 <= usize::MAX,
        ensures
            d.wf(),
            d.roots@.len() >= size,
            d.roots@.len() > 1 ==> (d.roots@.len() / 2) < size,
            size == 0 ==> d.roots@.len() == 1,
            exists|k: nat|
                k <= 32 && d.roots@.len() == pow2(k) && d.generator.val() == root_pow2_val(
                    (32 - k) as nat,
                ),
    {
        proof {
            lemma2_to64();
        }
        // Pad the requested size to the next power of two, tracking the
        // matching power of the primitive root's maximal order.
        let mut n: usize = 1;
        let mut exponent: u64 = 0x100000000;
        let ghost mut k: nat = 0;
        while n < size
            invariant
                1 <= n,
                size <= 0x100000000,
                0x100000000 <= usize::MAX,
                n == pow2(k),
                k <= 32,
                exponent == pow2((32 - k) as nat),
                n > 1 ==> n / 2 < size,
            decreases 0x100000000 - n,
        {
            proof {
                lemma2_to64();
                lemma2_to64_rest();
                if k >= 32 {
                    assert(pow2(k) >= pow2(32)) by {
                        if k > 32 {
                            lemma_pow2_strictly_increases(32, k);
                        }
                    }
                    assert(false);
                }
                lemma_pow2_adds(k, 1);
                lemma_pow2_strictly_increases(k + 1, 33);
                assert(pow2(33) == 0x200000000);
                lemma_pow2_adds((32 - (k + 1)) as nat, 1);
            }
            n = n * 2;
            exponent = exponent / 2;
            proof {
                k = k + 1;
            }
        }
        proof {
            assert(n <= 0x100000000) by {
                if k == 32 {
                    assert(pow2(32) == 0x100000000);
                } else {
                    lemma_pow2_strictly_increases(k, 32);
                }
            }
            lemma_is_pow_two_pow2(k);
        }

        let root = largest_root_of_unity();
        let generator = scalar_pow(&root, exponent);
        proof {
            lemma_root_pow2((32 - k) as nat);
            lemma_root_pow2_nonzero((32 - k) as nat);
            assert(generator.val() == root_pow2_val((32 - k) as nat));
            // The generator's power of the domain size is the root's maximal
            // power, which is one.
            lemma_pow_f_mul(root_of_unity_val(), pow2((32 - k) as nat), pow2(k));
            lemma_pow2_adds((32 - k) as nat, k);
            lemma_root_pow2(32);
            lemma_root_chain_values();
            assert(pow_f(generator.val(), pow2(k)) == 1);
        }
        let generator_inv = scalar_inv(&generator).unwrap();
        proof {
            lemma_inv_f_is(generator.val(), generator_inv.val());
        }

        let domain_size = Scalar::from_u64(n as u64);
        let domain_size_inv = scalar_inv(&domain_size).unwrap();
        proof {
            lemma_inv_f_is(domain_size.val(), domain_size_inv.val());
        }

        // No smaller positive power of the generator is one.
        proof {
            assert forall|d: int| 0 < d < n implies #[trigger] pow_f(generator.val(), d as nat) != 1 by {
                lemma_pow_f_mul(root_of_unity_val(), pow2((32 - k) as nat), d as nat);
                lemma_pow2_adds((32 - k) as nat, k);
                lemma_pow2_pos((32 - k) as nat);
                assert(1 <= pow2((32 - k) as nat) * d < pow2(32)) by (nonlinear_arith)
                    requires
                        1 <= d < pow2(k),
                        pow2((32 - k) as nat) >= 1,
                        pow2((32 - k) as nat) * pow2(k) == pow2(32),
                ;
                lemma_root_order((pow2((32 - k) as nat) * d) as nat);
            }
        }

        // The roots: consecutive powers of the generator, starting from one.
        let mut roots: Vec<Scalar> = Vec::new();
        roots.push(Scalar::one());
        let mut i: usize = 1;
        while i < n
            invariant
                1 <= i <= n,
                roots@.len() == i,
                generator.wf(),
                forall|j: int| 0 <= j < i ==> (#[trigger] roots@[j]).wf(),
                forall|j: int|
                    0 <= j < i ==> (#[trigger] roots@[j]).val() == pow_f(
                        generator.val(),
                        j as nat,
                    ),
            decreases n - i,
        {
            let prev = roots[i - 1];
            let next = scalar_mul(&prev, &generator);
            proof {
                lemma_mul_f_comm(prev.val(), generator.val());
                assert(pow_f(generator.val(), i as nat) == mul_f(generator.val(), pow_f(
                    generator.val(),
                    (i - 1) as nat,
                )));
            }
            roots.push(next);
            i += 1;
        }

        let d = Domain { roots, domain_size, domain_size_inv, generator, generator_inv };
        proof {
            assert(k <= 32 && d.roots@.len() == pow2(k) && d.generator.val() == root_pow2_val(
                (32 - k) as nat,
            ));
        }
        d
    }

    /// The number of elements in the domain.
    pub fn size(&self) -> (r: usize)
        ensures
            r == self.roots@.len(),
    {
        self.roots.len()
    }

    /// The ordered roots of unity of the domain.
    pub fn roots(&self) -> (r: &Vec<Scalar>)
        ensures
            r == &self.roots,
    {
        &self.roots
    }

    /// A linear membership scan: the position of the first root whose field
    /// value equals the element's, if there is one.
    pub fn find(&self, element: &Scalar) -> (r: Option<usize>)
        ensures
            match r {
                Some(i) => i < self.roots@.len() && self.roots@[i as int].val() == element.val()
                    && forall|j: int| 0 <= j < i ==> self.roots@[j].val() != element.val(),
                None => forall|j: int|
                    0 <= j < self.roots@.len() ==> self.roots@[j].val() != element.val(),
            },
    {
        let n = self.roots.len();
        let mut i: usize = 0;
        while i < n
            invariant
                i <= n,
                n == self.roots@.len(),
                forall|j: int| 0 <= j < i ==> self.roots@[j].val() != element.val(),
            decreases n - i,
        {
            if self.roots[i].eq_value(element) {
                return Some(i);
            }
            i += 1;
        }
        None
    }
}

/// The elements of even index of a sequence, in order.
pub open spec fn even_s<T>(s: Seq<T>) -> Seq<T> {
    Seq::new(((s.len() + 1) / 2) as nat, |i: int| s[2 * i])
}

/// The elements of odd index of a sequence, in order.
pub open spec fn odd_s<T>(s: Seq<T>) -> Seq<T> {
    Seq::new((s.len() / 2) as nat, |i: int| s[2 * i + 1])
}

/// The radix-2 decimation-in-time transform of a sequence of points of the
/// first group by the given root of unity: the halves of even and odd index
/// are transformed by the squared root, then recombined by butterflies
/// weighted with the increasing powers of the root.
pub open spec fn fft_g1_s(root: int, pts: Seq<Seq<u8>>) -> Seq<Seq<u8>>
    decreases pts.len(),
{
    if pts.len() <= 1 {
        pts
    } else {
        let half = pts.len() as int / 2;
        let fe = fft_g1_s(mul_f(root, root), even_s(pts));
        let fo = fft_g1_s(mul_f(root, root), odd_s(pts));
        Seq::new(
            pts.len(),
            |i: int|
                if i < half {
                    g1_add_s(fe[i], g1_mul_s(fo[i], pow_f(root, i as nat)))
                } else {
                    g1_sub_s(fe[i - half], g1_mul_s(fo[i - half], pow_f(root, (i - half) as nat)))
                },
        )
    }
}

/// The inverse transform over the first group: the forward transform taken by
/// the inverse generator, with every output scaled by the inverse domain size.
pub open spec fn ifft_g1_s(gen_inv: int, size_inv: int, pts: Seq<Seq<u8>>) -> Seq<Seq<u8>> {
    Seq::new(pts.len(), |i: int| g1_mul_s(fft_g1_s(gen_inv, pts)[i], size_inv))
}

impl Domain {
    /// The inverse transform of a vector of points of the first group, taken
    /// by this domain's inverse generator. The number of points must equal
    /// the domain size.
    pub fn ifft_g1(&self, points: Vec<G1Point>) -> (r: Vec<G1Point>)
        requires
            self.wf(),
            points@.len() == self.roots@.len(),
            forall|i: int| 0 <= i < points@.len() ==> (#[trigger] points@[i]).wf(),
        ensures
            r@.len() == points@.len(),
            forall|i: int| 0 <= i < r@.len() ==> (#[trigger] r@[i]).wf(),
            pviews(r@) == ifft_g1_s(
                self.generator_inv.val(),
                self.domain_size_inv.val(),
                pviews(points@),
            ),
    {
        let n = points.len();
        let transformed = fft_g1(&self.generator_inv, &points);

        // Scaling each output by the inverse domain size turns the forward
        // transform by the inverse generator into the inverse transform.
        let mut out: Vec<G1Point> = Vec::new();
        let mut i: usize = 0;
        while i < n
            invariant
                i <= n,
                n == points@.len(),
                self.wf(),
                transformed@.len() == n,
                forall|j: int| 0 <= j < n ==> (#[trigger] transformed@[j]).wf(),
                pviews(transformed@) == fft_g1_s(self.generator_inv.val(), pviews(points@)),
                out@.len() == i,
                forall|j: int| 0 <= j < i ==> (#[trigger] out@[j]).wf(),
                forall|j: int|
                    0 <= j < i ==> (#[trigger] out@[j])@ == g1_mul_s(
                        fft_g1_s(self.generator_inv.val(), pviews(points@))[j],
                        self.domain_size_inv.val(),
                    ),
            decreases n - i,
        {
            proof {
                assert(pviews(transformed@)[i as int] == transformed@[i as int]@);
            }
            out.push(g1_mul(&transformed[i], &self.domain_size_inv));
            i += 1;
        }
        proof {
            assert(pviews(out@) =~= ifft_g1_s(
                self.generator_inv.val(),
                self.domain_size_inv.val(),
                pviews(points@),
            ));
        }
        out
    }
}

/// The radix-2 decimation-in-time transform over the first group, by a root
/// of unity whose order is the (power-of-two) number of points.
pub fn fft_g1(nth_root_of_unity: &Scalar, points: &Vec<G1Point>) -> (r: Vec<G1Point>)
    requires
        nth_root_of_unity.wf(),
        is_pow_two(points@.len() as int),
        forall|i: int| 0 <= i < points@.len() ==> (#[trigger] points@[i]).wf(),
    ensures
        r@.len() == points@.len(),
        forall|i: int| 0 <= i < r@.len() ==> (#[trigger] r@[i]).wf(),
        pviews(r@) == fft_g1_s(nth_root_of_unity.val(), pviews(points@)),
    decreases points@.len(),
{
    let n = points.len();
    if n == 1 {
        let mut out: Vec<G1Point> = Vec::new();
        out.push(points[0]);
        proof {
            assert(pviews(out@) =~= pviews(points@));
        }
        return out;
    }

    let (even, odd) = take_even_odd(points);
    proof {
        assert(even@.len() == n / 2 && odd@.len() == n / 2);
        assert(is_pow_two(n as int / 2));
        assert(pviews(even@) =~= even_s(pviews(points@)));
        assert(pviews(odd@) =~= odd_s(pviews(points@)));
    }

    // A root with half the order drives the two half-size transforms.
    let gen_squared = scalar_mul(nth_root_of_unity, nth_root_of_unity);
    let fft_even = fft_g1(&gen_squared, &even);
    let fft_odd = fft_g1(&gen_squared, &odd);

    let ghost rootv = nth_root_of_unity.val();
    let ghost pv = pviews(points@);
    let ghost spec_out = fft_g1_s(rootv, pv);
    let ghost half = n as int / 2;

    let mut input_point = Scalar::one();
    let mut left: Vec<G1Point> = Vec::new();
    let mut right: Vec<G1Point> = Vec::new();
    let mut k: usize = 0;
    while k < n / 2
        invariant
            k <= n / 2,
            n == points@.len(),
            n >= 2,
            half == n as int / 2,
            nth_root_of_unity.wf(),
            rootv == nth_root_of_unity.val(),
            pv == pviews(points@),
            spec_out == fft_g1_s(rootv, pv),
            spec_out.len() == n,
            fft_even@.len() == half,
            fft_odd@.len() == half,
            forall|j: int| 0 <= j < half ==> (#[trigger] fft_even@[j]).wf(),
            forall|j: int| 0 <= j < half ==> (#[trigger] fft_odd@[j]).wf(),
            pviews(fft_even@) == fft_g1_s(mul_f(rootv, rootv), even_s(pv)),
            pviews(fft_odd@) == fft_g1_s(mul_f(rootv, rootv), odd_s(pv)),
            input_point.wf(),
            input_point.val() == pow_f(rootv, k as nat),
            left@.len() == k,
            right@.len() == k,
            forall|j: int| 0 <= j < k ==> (#[trigger] left@[j]).wf(),
            forall|j: int| 0 <= j < k ==> (#[trigger] right@[j]).wf(),
            forall|j: int| 0 <= j < k ==> (#[trigger] left@[j])@ == spec_out[j],
            forall|j: int| 0 <= j < k ==> (#[trigger] right@[j])@ == spec_out[j + half],
        decreases n / 2 - k,
    {
        proof {
            assert(pviews(fft_even@)[k as int] == fft_even@[k as int]@);
            assert(pviews(fft_odd@)[k as int] == fft_odd@[k as int]@);
        }
        let tmp = g1_mul(&fft_odd[k], &input_point);
        left.push(g1_add(&fft_even[k], &tmp));
        right.push(g1_sub(&fft_even[k], &tmp));
        let next_point = scalar_mul(&input_point, nth_root_of_unity);
        proof {
            lemma_mul_f_comm(input_point.val(), rootv);
            assert(pow_f(rootv, (k + 1) as nat) == mul_f(rootv, pow_f(rootv, k as nat)));
        }
        input_point = next_point;
        k += 1;
    }

    let mut evaluations = left;
    let mut right = right;
    evaluations.append(&mut right);
    proof {
        assert(pviews(evaluations@) =~= spec_out);
    }
    evaluations
}

/// Splits a list into the elements of even and of odd index, keeping order.
pub fn take_even_odd<T: Copy>(list: &Vec<T>) -> (r: (Vec<T>, Vec<T>))
    ensures
        r.0@ == even_s(list@),
        r.1@ == odd_s(list@),
{
    let mut even: Vec<T> = Vec::new();
    let mut odd: Vec<T> = Vec::new();
    let mut index: usize = 0;
    let n = list.len();
    while index < n
        invariant
            index <= n,
            n == list@.len(),
            even@.len() == (index + 1) / 2,
            odd@.len() == index / 2,
            forall|j: int| 0 <= j < even@.len() ==> (#[trigger] even@[j]) == list@[2 * j],
            forall|j: int| 0 <= j < odd@.len() ==> (#[trigger] odd@[j]) == list@[2 * j + 1],
        decreases n - index,
    {
        let value = list[index];
        if index % 2 == 0 {
            even.push(value);
        } else {
            odd.push(value);
        }
        index += 1;
    }
    proof {
        assert(even@ =~= even_s(list@));
        assert(odd@ =~= odd_s(list@));
    }
    (even, odd)
}

/// Every power of two satisfies the power-of-two predicate.
proof fn lemma_is_pow_two_pow2(k: nat)
    ensures
        is_pow_two(pow2(k) as int),
    decreases k,
{
    lemma2_to64();
    if k > 0 {
        lemma_is_pow_two_pow2((k - 1) as nat);
        lemma_pow2_adds((k - 1) as nat, 1);
        lemma_pow2_pos((k - 1) as nat);
        assert(pow2(k) == pow2((k - 1) as nat) * 2);
        assert(pow2(k) as int % 2 == 0 && pow2(k) as int / 2 == pow2((k - 1) as nat));
    }
}

/// The fixed primitive root of unity of order two to the thirty-second.
pub fn largest_root_of_unity() -> (r: Scalar)
    ensures
        r.wf(),
        r.val() == root_of_unity_val(),
{
    proof {
        assert(0x3829971f439f0d2b + 0xb63683508c2280b9 * 0x10000000000000000int
            + 0xd09b681922c813b4 * 0x100000000000000000000000000000000int + 0x16a2a19edfe81f20
            * 0x1000000000000000000000000000000000000000000000000int == root_of_unity_val());
        assert(root_of_unity_val() < fr_m());
    }
    Scalar::from_limbs(
        0x3829971f439f0d2b,
        0xb63683508c2280b9,
        0xd09b681922c813b4,
        0x16a2a19edfe81f20,
    )
}

/// No root of a well-formed domain vanishes: each is a power of the
/// generator, and powers of the generator multiply up to one.
pub proof fn lemma_roots_nonzero(d: Domain)
    requires
        d.wf(),
    ensures
        forall|i: int| 0 <= i < d.roots@.len() ==> (#[trigger] d.roots@[i]).val() != 0,
{
    let n = d.roots@.len() as int;
    let g = d.generator.val();
    assert forall|i: int| 0 <= i < n implies (#[trigger] d.roots@[i]).val() != 0 by {
        lemma_pow_f_add(g, i as nat, (n - i) as nat);
        assert(mul_f(pow_f(g, i as nat), pow_f(g, (n - i) as nat)) == 1);
        if pow_f(g, i as nat) == 0 {
            assert(mul_f(0, pow_f(g, (n - i) as nat)) == 0);
        }
    }
}

/// The roots of a well-formed domain are pairwise distinct field elements:
/// were two powers of the generator equal, a smaller positive power of the
/// generator would be one, against the generator's minimal order.
pub proof fn lemma_roots_distinct(d: Domain)
    requires
        d.wf(),
    ensures
        forall|i: int, j: int|
            0 <= i < d.roots@.len() && 0 <= j < d.roots@.len() && i != j
                ==> (#[trigger] d.roots@[i]).val() != (#[trigger] d.roots@[j]).val(),
{
    let n = d.roots@.len() as int;
    let g = d.generator.val();
    assert forall|i: int, j: int|
        0 <= i < n && 0 <= j < n && i < j implies (#[trigger] d.roots@[i]).val() != (
    #[trigger] d.roots@[j]).val() by {
        if d.roots@[i].val() == d.roots@[j].val() {
            // One is the product of the i-th power and its complement.
            lemma_pow_f_add(g, i as nat, (n - i) as nat);
            assert(mul_f(pow_f(g, i as nat), pow_f(g, (n - i) as nat)) == 1);
            // Substituting the j-th power lands on the power n + (j - i).
            lemma_pow_f_add(g, j as nat, (n - i) as nat);
            assert(mul_f(pow_f(g, j as nat), pow_f(g, (n - i) as nat)) == pow_f(
                g,
                (j + n - i) as nat,
            ));
            lemma_pow_f_add(g, n as nat, (j - i) as nat);
            assert(pow_f(g, (j + n - i) as nat) == mul_f(pow_f(g, n as nat), pow_f(
                g,
                (j - i) as nat,
            )));
            lemma_pow_f_bound(g, (j - i) as nat);
            lemma_mul_f_one(pow_f(g, (j - i) as nat));
            assert(pow_f(g, (j - i) as nat) == 1);
            assert(0 < j - i < n);
            assert(false);
        }
    }
    assert forall|i: int, j: int|
        0 <= i < n && 0 <= j < n && i != j implies (#[trigger] d.roots@[i]).val() != (
    #[trigger] d.roots@[j]).val() by {
    }
}

/// The domain generator has minimal order the domain size: its power of the
/// size is one, while its power of half the size is not.
pub proof fn lemma_generator_order(d: Domain)
    requires
        d.wf(),
        d.roots@.len() >= 2,
    ensures
        pow_f(d.generator.val(), d.roots@.len() as nat) == 1,
        pow_f(d.generator.val(), (d.roots@.len() / 2) as nat) != 1,
{
    let n = d.roots@.len() as int;
    let h = n / 2;
    assert(0 < h < n);
    assert(pow_f(d.generator.val(), h as nat) != 1);
    assert(h as nat == (d.roots@.len() / 2) as nat);
}

} // verus!
