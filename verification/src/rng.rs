//! The pseudo-random generator of the scrambler, and why its low bits keep changing.
//!
//! [`Xorshift64`] is Marsaglia's generator with shifts 13, 7 and 17. Its step is linear over bits:
//! the step of an exclusive or is the exclusive or of the steps. So the lowest bits of sixty-four
//! states, taken three steps apart, determine the first of these states; [`gathered`] computes it
//! back from them. A run of sixty-five equal lowest bits would therefore name its own first state,
//! and there is none but zero. The scrambler relies on this when it draws until a move is allowed.

use vstd::prelude::*;

verus! {

/// The state that takes the place of a zero seed.
pub const ZERO_SEED_STATE: u64 = 0xDEAD_BEEF_CAFE_1337;

/// The state that follows `x`, which is also the number drawn.
pub open spec fn step(x: u64) -> u64 {
    let a = x ^ (x << 13);
    let b = a ^ (a >> 7);
    b ^ (b << 17)
}

/// The state three draws after `x`.
pub open spec fn stride(x: u64) -> u64 {
    step(step(step(x)))
}

/// The state `3 * k` draws after `x`.
pub open spec fn orbit(x: u64, k: u64) -> u64
    decreases k,
{
    if k == 0 {
        x
    } else {
        orbit(stride(x), (k - 1) as u64)
    }
}

/// A xorshift generator.
pub struct Xorshift64 {
    pub state: u64,
}

impl Xorshift64 {
    /// The generator can leave its state: zero is the one state that steps to itself.
    pub open spec fn wf(self) -> bool {
        self.state != 0
    }

    /// A generator that starts from `seed`, or from a fixed state if `seed` is zero.
    pub fn new(seed: u64) -> (res: Self)
        ensures
            res.state == (if seed == 0 {
                ZERO_SEED_STATE
            } else {
                seed
            }),
            res.wf(),
    {
        let state = if seed == 0 { ZERO_SEED_STATE } else { seed };
        Self { state }
    }

    /// Draws the next number.
    pub fn next_u64(&mut self) -> (x: u64)
        ensures
            x == step(old(self).state),
            final(self).state == x,
            old(self).wf() ==> final(self).wf(),
    {
        let ghost before = self.state;
        let mut x = self.state;
        x ^= x << 13;
        x ^= x >> 7;
        x ^= x << 17;
        self.state = x;
        proof {
            if before != 0 {
                lemma_step_nonzero(before);
            }
        }
        x
    }

    /// Draws a number below `n`.
    pub fn next_bounded(&mut self, n: u64) -> (x: u64)
        requires
            n != 0,
        ensures
            x == step(old(self).state) % n,
            x < n,
            final(self).state == step(old(self).state),
            old(self).wf() ==> final(self).wf(),
    {
        self.next_u64() % n
    }
}

/// No state but zero steps to zero.
pub proof fn lemma_step_nonzero(x: u64)
    requires
        x != 0,
    ensures
        step(x) != 0,
{
    assert(x != 0 ==> step(x) != 0) by (bit_vector);
}

/// No two states step to the same state: no draw loses anything of the seed.
pub proof fn law_step_is_injective(x: u64, y: u64)
    requires
        step(x) == step(y),
    ensures
        x == y,
{
    let (a, b) = (step(x), step(y));
    assert(step(x ^ y) == step(x) ^ step(y)) by (bit_vector);
    assert(a ^ b == 0) by (bit_vector)
        requires
            a == b,
    ;
    if x ^ y != 0 {
        lemma_step_nonzero(x ^ y);
    }
    assert(x ^ y == 0 ==> x == y) by (bit_vector);
}

/// Single draws and triple draws can be taken in either order.
pub proof fn lemma_orbit_of_step(x: u64, k: u64)
    ensures
        orbit(step(x), k) == step(orbit(x, k)),
    decreases k,
{
    if k > 0 {
        lemma_orbit_of_step(stride(x), (k - 1) as u64);
    }
}

/// The state after one more triple draw.
pub proof fn lemma_orbit_next(x: u64, k: u64)
    requires
        k < u64::MAX,
    ensures
        orbit(x, (k + 1) as u64) == stride(orbit(x, k)),
    decreases k,
{
    if k > 0 {
        lemma_orbit_next(stride(x), (k - 1) as u64);
        assert((k + 1) as u64 - 1 == (k - 1) as u64 + 1);
    } else {
        assert(orbit(stride(x), 0) == stride(x));
    }
}

/// What the lowest bit of a state says about the first state of the run, when `k` states of the
/// run, this one included, are still to be read.
spec fn weight(k: u64) -> u64 {
    if k == 64 {
        0x27f5_a28b_120a_ff51
    } else if k == 63 {
        0xb6fc_8063_2fac_1f42
    } else if k == 62 {
        0x8400_765d_2d48_e49a
    } else if k == 61 {
        0x4e98_1693_cb85_8434
    } else if k == 60 {
        0x9f3c_5d0c_dab9_b1f0
    } else if k == 59 {
        0x3138_cba4_23ca_e7a2
    } else if k == 58 {
        0x071b_f45f_6e66_5106
    } else if k == 57 {
        0x452f_2688_e9e8_e33c
    } else if k == 56 {
        0x2267_d5c9_0c20_dd38
    } else if k == 55 {
        0xd620_326c_732d_02f8
    } else if k == 54 {
        0xc709_00dd_3aaa_389c
    } else if k == 53 {
        0x2abd_76ef_3c4e_71f0
    } else if k == 52 {
        0xa51d_1a98_3d13_e3c4
    } else if k == 51 {
        0x4316_555f_18fb_8eb4
    } else if k == 50 {
        0x89f9_69da_bd1b_c2c2
    } else if k == 49 {
        0xc3c3_920f_48b9_85a2
    } else if k == 48 {
        0x835b_3af4_ecc9_1526
    } else if k == 47 {
        0x8e34_883e_4f2f_a280
    } else if k == 46 {
        0x960e_c20a_8d17_8202
    } else if k == 45 {
        0x5d1f_ca64_0875_aede
    } else if k == 44 {
        0x6759_b03f_7b6b_ed60
    } else if k == 43 {
        0xea97_e18b_e9f6_fe68
    } else if k == 42 {
        0x25ef_e381_e683_44bc
    } else if k == 41 {
        0x0997_9692_c8b6_8886
    } else if k == 40 {
        0xf6a4_4ab9_530e_e5aa
    } else if k == 39 {
        0x13fd_f0cb_0314_fb9e
    } else if k == 38 {
        0x0cc8_8063_5696_8376
    } else if k == 37 {
        0x81f8_6a2e_e939_7128
    } else if k == 36 {
        0x9adc_64ef_98c5_e98e
    } else if k == 35 {
        0x7c3f_2f58_57fa_647c
    } else if k == 34 {
        0x3911_8ba2_294e_0518
    } else if k == 33 {
        0xc749_5d1e_a4b0_7c48
    } else if k == 32 {
        0xdca5_55c9_3211_49e6
    } else if k == 31 {
        0xab8b_802c_c262_fb38
    } else if k == 30 {
        0xe69f_789d_1560_704e
    } else if k == 29 {
        0xcd02_d513_9572_ca66
    } else if k == 28 {
        0xab38_ff2e_7855_8d78
    } else if k == 27 {
        0xe81a_a202_25de_862c
    } else if k == 26 {
        0xed3b_f2db_2662_7b10
    } else if k == 25 {
        0x1232_6c29_7b15_b91c
    } else if k == 24 {
        0x0595_ee8b_5f99_e69e
    } else if k == 23 {
        0x1f62_31cd_3301_3416
    } else if k == 22 {
        0xea9c_4cfc_bdb0_9fe2
    } else if k == 21 {
        0xcf4a_01d7_fa7c_b0fa
    } else if k == 20 {
        0x7eb5_9722_63b3_5118
    } else if k == 19 {
        0xe308_cbbe_7ac7_ebe2
    } else if k == 18 {
        0x058a_786a_6267_ff4c
    } else if k == 17 {
        0xa593_e471_6db0_da06
    } else if k == 16 {
        0xf994_c2e1_b0e8_8e8a
    } else if k == 15 {
        0xb428_1865_8b6b_c95c
    } else if k == 14 {
        0x5ef6_311f_e9df_40fa
    } else if k == 13 {
        0xf911_a94d_c8c3_0922
    } else if k == 12 {
        0xe10a_1835_9538_26be
    } else if k == 11 {
        0x82d4_875f_32e8_18b0
    } else if k == 10 {
        0x31fd_e1a6_fe87_8974
    } else if k == 9 {
        0x089c_6970_70f2_6a12
    } else if k == 8 {
        0x0965_4167_da9d_2c16
    } else if k == 7 {
        0x68fa_09ce_ce29_4d64
    } else if k == 6 {
        0x59ba_9def_f3c1_9356
    } else if k == 5 {
        0x88d1_2a03_22fe_f728
    } else if k == 4 {
        0xb7ee_749b_acda_ba1c
    } else if k == 3 {
        0x01bd_5534_9b1c_af58
    } else if k == 2 {
        0xc2d9_0af9_b16d_4806
    } else {
        0x96c6_efec_77bc_2f8c
    }
}

/// `w` if the lowest bit of `x` is set.
spec fn if_odd(x: u64, w: u64) -> u64 {
    if x & 1 == 1 {
        w
    } else {
        0
    }
}

/// The exclusive or of the weights of the odd states among the `k` states of the run from `x`.
spec fn gathered(x: u64, k: u64) -> u64
    decreases k,
{
    if k == 0 {
        0
    } else {
        if_odd(x, weight(k)) ^ gathered(stride(x), (k - 1) as u64)
    }
}

/// The exclusive or of the last `k` weights.
spec fn all_weights(k: u64) -> u64
    decreases k,
{
    if k == 0 {
        0
    } else {
        weight(k) ^ all_weights((k - 1) as u64)
    }
}

/// A state with the single bit `n` is gathered back from its run.
spec fn bit_gathered(n: u64) -> bool {
    gathered(1u64 << n, 64) == 1u64 << n
}

/// Each of the sixty-four single bits is gathered back from its run.
proof fn lemma_bit_gathered(n: u64)
    requires
        n < 64,
    ensures
        gathered(1u64 << n, 64) == 1u64 << n,
{
    assert(
        bit_gathered(0) && bit_gathered(1) && bit_gathered(2) && bit_gathered(3)
        && bit_gathered(4) && bit_gathered(5) && bit_gathered(6) && bit_gathered(7)
        && bit_gathered(8) && bit_gathered(9) && bit_gathered(10) && bit_gathered(11)
        && bit_gathered(12) && bit_gathered(13) && bit_gathered(14) && bit_gathered(15)
        && bit_gathered(16) && bit_gathered(17) && bit_gathered(18) && bit_gathered(19)
        && bit_gathered(20) && bit_gathered(21) && bit_gathered(22) && bit_gathered(23)
        && bit_gathered(24) && bit_gathered(25) && bit_gathered(26) && bit_gathered(27)
        && bit_gathered(28) && bit_gathered(29) && bit_gathered(30) && bit_gathered(31)
        && bit_gathered(32) && bit_gathered(33) && bit_gathered(34) && bit_gathered(35)
        && bit_gathered(36) && bit_gathered(37) && bit_gathered(38) && bit_gathered(39)
        && bit_gathered(40) && bit_gathered(41) && bit_gathered(42) && bit_gathered(43)
        && bit_gathered(44) && bit_gathered(45) && bit_gathered(46) && bit_gathered(47)
        && bit_gathered(48) && bit_gathered(49) && bit_gathered(50) && bit_gathered(51)
        && bit_gathered(52) && bit_gathered(53) && bit_gathered(54) && bit_gathered(55)
        && bit_gathered(56) && bit_gathered(57) && bit_gathered(58) && bit_gathered(59)
        && bit_gathered(60) && bit_gathered(61) && bit_gathered(62) && bit_gathered(63)
    ) by (bit_vector);
    assert(bit_gathered(n));
}

/// Gathering is linear over bits.
proof fn lemma_gathered_xor(x: u64, y: u64, k: u64)
    ensures
        gathered(x ^ y, k) == gathered(x, k) ^ gathered(y, k),
    decreases k,
{
    if k == 0 {
        assert(0u64 ^ 0u64 == 0u64) by (bit_vector);
    } else {
        let w = weight(k);
        assert(stride(x ^ y) == stride(x) ^ stride(y)) by (bit_vector);
        lemma_gathered_xor(stride(x), stride(y), (k - 1) as u64);
        assert(if_odd(x ^ y, w) == if_odd(x, w) ^ if_odd(y, w)) by (bit_vector);
        let (a, b) = (if_odd(x, w), if_odd(y, w));
        let c = gathered(stride(x), (k - 1) as u64);
        let d = gathered(stride(y), (k - 1) as u64);
        assert((a ^ b) ^ (c ^ d) == (a ^ c) ^ (b ^ d)) by (bit_vector);
    }
}

/// Every state of at most `n` bits is gathered back from its run.
proof fn lemma_gathered(x: u64, n: u64)
    requires
        n <= 64,
        n < 64 ==> x >> n == 0,
    ensures
        gathered(x, 64) == x,
    decreases n,
{
    if n == 0 {
        assert(x >> 0 == 0 ==> x == 0) by (bit_vector);
        lemma_gathered_xor(0, 0, 64);
        let g = gathered(0, 64);
        assert(0u64 ^ 0u64 == 0u64) by (bit_vector);
        assert(g ^ g == 0) by (bit_vector);
    } else {
        let m = (n - 1) as u64;
        if x >> m == 0 {
            lemma_gathered(x, m);
        } else {
            let u = 1u64 << m;
            let y = x ^ u;
            assert(y >> m == 0 && y ^ u == x) by (bit_vector)
                requires
                    0 < n <= 64,
                    m == n - 1,
                    u == 1u64 << m,
                    y == x ^ u,
                    x >> m != 0,
                    n < 64 ==> x >> n == 0,
            ;
            lemma_gathered(y, m);
            lemma_bit_gathered(m);
            lemma_gathered_xor(y, u, 64);
        }
    }
}

/// What a run of `k` equal lowest bits gathers to.
proof fn lemma_gathered_constant(x: u64, k: u64, odd: bool)
    requires
        forall|j: u64| j < k ==> (#[trigger] orbit(x, j) & 1 == 1) == odd,
    ensures
        gathered(x, k) == (if odd {
            all_weights(k)
        } else {
            0
        }),
    decreases k,
{
    if k > 0 {
        assert(orbit(x, 0) == x);
        assert forall|j: u64| j < k - 1 implies (#[trigger] orbit(stride(x), j) & 1 == 1)
            == odd by {
            assert(orbit(x, (j + 1) as u64) == orbit(stride(x), j));
        }
        lemma_gathered_constant(stride(x), (k - 1) as u64, odd);
        assert(0u64 ^ 0u64 == 0u64) by (bit_vector);
    }
}

/// Among any sixty-five states of the generator, taken three draws apart, both an even and an odd
/// one occur.
pub proof fn law_low_bit_changes(x: u64, odd: bool)
    requires
        x != 0,
    ensures
        exists|j: u64| j <= 64 && (#[trigger] orbit(x, j) & 1 == 1) != odd,
{
    if forall|j: u64| j <= 64 ==> (#[trigger] orbit(x, j) & 1 == 1) == odd {
        lemma_gathered_constant(x, 64, odd);
        lemma_gathered(x, 64);
        assert(all_weights(64) == 0x1538_f721_71a1_83c3 && orbit(0x1538_f721_71a1_83c3, 64) & 1 == 0) by (bit_vector);
        assert((orbit(x, 64) & 1 == 1) == odd);
        assert(false);
    }
}

/// The step of an exclusive or is the exclusive or of the steps.
pub proof fn law_step_is_linear(x: u64, y: u64)
    ensures
        step(x ^ y) == step(x) ^ step(y),
{
    assert(step(x ^ y) == step(x) ^ step(y)) by (bit_vector);
}

/// A step is taken back by undoing its three shifts, the last one first: 17 bits up, 7 bits down,
/// 13 bits up.
pub proof fn law_step_can_be_taken_back(x: u64)
    ensures
        ({
            let y = step(x);
            let b = y ^ (y << 17) ^ (y << 34) ^ (y << 51);
            let a = b ^ (b >> 7) ^ (b >> 14) ^ (b >> 21) ^ (b >> 28) ^ (b >> 35) ^ (b >> 42) ^ (b
                >> 49) ^ (b >> 56) ^ (b >> 63);
            x == a ^ (a << 13) ^ (a << 26) ^ (a << 39) ^ (a << 52)
        }),
{
    assert({
        let y = step(x);
        let b = y ^ (y << 17) ^ (y << 34) ^ (y << 51);
        let a = b ^ (b >> 7) ^ (b >> 14) ^ (b >> 21) ^ (b >> 28) ^ (b >> 35) ^ (b >> 42) ^ (b >> 49)
            ^ (b >> 56) ^ (b >> 63);
        x == a ^ (a << 13) ^ (a << 26) ^ (a << 39) ^ (a << 52)
    }) by (bit_vector);
}

/// The state that steps to `y`.
pub open spec fn unstep(y: u64) -> u64 {
    let b = y ^ (y << 17) ^ (y << 34) ^ (y << 51);
    let a = b ^ (b >> 7) ^ (b >> 14) ^ (b >> 21) ^ (b >> 28) ^ (b >> 35) ^ (b >> 42) ^ (b >> 49) ^ (
    b >> 56) ^ (b >> 63);
    a ^ (a << 13) ^ (a << 26) ^ (a << 39) ^ (a << 52)
}

/// Every number but zero is drawn from some state that the generator can be in.
pub proof fn law_every_number_can_be_drawn(y: u64)
    requires
        y != 0,
    ensures
        step(unstep(y)) == y,
        unstep(y) != 0,
{
    assert(step(unstep(y)) == y) by (bit_vector);
    assert(step(0) == 0) by (bit_vector);
}

/// The number of draw `n` from state `x`, which is also the state after it.
pub open spec fn draw(x: u64, n: nat) -> u64
    decreases n,
{
    if n == 0 {
        x
    } else {
        step(draw(x, (n - 1) as nat))
    }
}

/// Runs of triple draws are runs of draws.
pub proof fn law_orbit_counts_three_draws(x: u64, k: u64)
    ensures
        orbit(x, k) == draw(x, 3 * k as nat),
        stride(orbit(x, k)) == draw(x, (3 * k + 3) as nat),
    decreases k,
{
    if k > 0 {
        let j = (k - 1) as u64;
        law_orbit_counts_three_draws(x, j);
        lemma_orbit_next(x, j);
    }
    let n = (3 * k) as nat;
    assert(draw(x, n + 1) == step(draw(x, n)));
    assert(draw(x, n + 2) == step(draw(x, n + 1)));
    assert(draw(x, n + 3) == step(draw(x, n + 2)));
}

/// The number drawn before `y` leaves remainder `a` by three.
spec fn leads(y: u64, a: u64) -> bool {
    unstep(y) % 3 == a
}

/// One of nine numbers that differ from `y` by multiples of 6400 has such a number before it.
spec fn some_leads(y: u64, a: u64) -> bool {
    ||| leads((y + 6400) as u64, a)
    ||| leads((y + 2867200) as u64, a)
    ||| leads((y + 9952000) as u64, a)
    ||| leads((y + 6297600) as u64, a)
    ||| leads((y + 3603200) as u64, a)
    ||| leads((y + 11129600) as u64, a)
    ||| leads((y + 13836800) as u64, a)
    ||| leads((y + 1753600) as u64, a)
    ||| leads((y + 3296000) as u64, a)
}

/// Every remainder by three occurs before a number like `l` and before a number like `l + 3200`.
spec fn reached(l: u64) -> bool {
    &&& some_leads(l, 0)
    &&& some_leads(l, 1)
    &&& some_leads(l, 2)
    &&& some_leads((l + 3200) as u64, 0)
    &&& some_leads((l + 3200) as u64, 1)
    &&& some_leads((l + 3200) as u64, 2)
}

/// This holds of all numbers below `n`.
spec fn all_reached(n: u64) -> bool
    decreases n,
{
    n == 0 || (reached((n - 1) as u64) && all_reached((n - 1) as u64))
}

proof fn lemma_all_reached(n: u64, l: u64)
    requires
        all_reached(n),
        l < n,
    ensures
        reached(l),
    decreases n,
{
    if l < n - 1 {
        lemma_all_reached((n - 1) as u64, l);
    }
}

/// Whether the next number is even depends on bits 0 and 7 alone: a multiple of 6400 changes
/// neither, and 3200 changes the one.
proof fn lemma_next_parity(l: u64, o: u64)
    requires
        l < 200,
        o % 6400 == 0,
        o < 100000000,
    ensures
        (step((l + o) as u64) % 2 == 0) == (step(l) % 2 == 0),
        (step((l + 3200 + o) as u64) % 2 == 0) != (step(l) % 2 == 0),
{
    let j = o / 6400;
    assert(o == j * 6400);
    assert((step((l + j * 6400) as u64) % 2 == 0) == (step(l) % 2 == 0) && (step(
        (l + 3200 + j * 6400) as u64,
    ) % 2 == 0) != (step(l) % 2 == 0)) by (bit_vector)
        requires
            l < 200,
            j < 20000,
    ;
}

proof fn lemma_reached(l: u64)
    requires
        l < 200,
    ensures
        reached(l),
{
    assert(all_reached(200)) by (bit_vector);
    lemma_all_reached(200, l);
}

proof fn lemma_offset(base: u64, a: u64) -> (o: u64)
    requires
        base < 4000,
        some_leads(base, a),
    ensures
        o % 6400 == 0,
        0 < o < 100000000,
        leads((base + o) as u64, a),
{
    if leads((base + 6400) as u64, a) {
        6400
    } else if leads((base + 2867200) as u64, a) {
        2867200
    } else if leads((base + 9952000) as u64, a) {
        9952000
    } else if leads((base + 6297600) as u64, a) {
        6297600
    } else if leads((base + 3603200) as u64, a) {
        3603200
    } else if leads((base + 11129600) as u64, a) {
        11129600
    } else if leads((base + 13836800) as u64, a) {
        13836800
    } else if leads((base + 1753600) as u64, a) {
        1753600
    } else {
        3296000
    }
}

/// For all remainders by three, by two hundred and by two there is a state from which three draws
/// leave them: all moves can be drawn.
pub proof fn law_every_triple_can_be_drawn(a: u64, l: u64, even: bool) -> (x: u64)
    requires
        a < 3,
        l < 200,
    ensures
        x != 0,
        draw(x, 1) % 3 == a,
        draw(x, 2) % 200 == l,
        (draw(x, 3) % 2 == 0) == even,
{
    lemma_reached(l);
    let far = (step(l) % 2 == 0) != even;
    let base = if far { (l + 3200) as u64 } else { l };
    let o = lemma_offset(base, a);
    let y = (base + o) as u64;
    lemma_next_parity(l, o);
    assert(y % 200 == l);
    let first = unstep(y);
    let x = unstep(first);
    law_every_number_can_be_drawn(y);
    law_every_number_can_be_drawn(first);
    assert(draw(x, 0) == x);
    assert(draw(x, 1) == step(draw(x, 0)));
    assert(draw(x, 2) == step(draw(x, 1)));
    assert(draw(x, 3) == step(draw(x, 2)));
    x
}

} // verus!
