//! The Poseidon permutation in its optimised form, over tables of round
//! constants and matrices that the caller supplies for each state width.

use vstd::prelude::*;
use vstd::arithmetic::power::pow;
use crate::scalar::{modulus, Scalar};

verus! {

/// Full rounds of the permutation.
pub const N_ROUNDS_F: usize = 8;

/// Sum in the field.
pub open spec fn f_add(a: nat, b: nat) -> nat {
    (a + b) % modulus()
}

/// Product in the field.
pub open spec fn f_mul(a: nat, b: nat) -> nat {
    (a * b) % modulus()
}

/// The S-box: the fifth power.
pub open spec fn spec_sigma(x: nat) -> nat {
    (pow(x as int, 5) % (modulus() as int)) as nat
}

/// The values of a row of elements.
pub open spec fn vals(v: Seq<Scalar>) -> Seq<nat> {
    Seq::new(v.len(), |i: int| v[i]@)
}

/// The values of a matrix of elements.
pub open spec fn mvals(m: Seq<Vec<Scalar>>) -> Seq<Seq<nat>> {
    Seq::new(m.len(), |i: int| vals(m[i]@))
}

/// The tables for one state width `t`, as numbers.
pub struct Tables {
    pub t: nat,
    pub n_rounds_p: nat,
    pub c: Seq<nat>,
    pub s: Seq<nat>,
    pub m: Seq<Seq<nat>>,
    pub p: Seq<Seq<nat>>,
}

/// The tables are as large as the permutation for their width reads them.
pub open spec fn valid_tables(tb: Tables) -> bool {
    &&& tb.t >= 2
    &&& tb.c.len() >= 8 * tb.t + tb.n_rounds_p
    &&& tb.s.len() >= (2 * tb.t - 1) * tb.n_rounds_p
    &&& tb.m.len() == tb.t
    &&& tb.p.len() == tb.t
    &&& forall|i: int| 0 <= i < tb.t ==> (#[trigger] tb.m[i]).len() == tb.t
    &&& forall|i: int| 0 <= i < tb.t ==> (#[trigger] tb.p[i]).len() == tb.t
}

/// Adds the round constants `c[r ..]` to the state.
pub open spec fn spec_ark(x: Seq<nat>, c: Seq<nat>, r: int) -> Seq<nat> {
    Seq::new(x.len(), |i: int| f_add(x[i], c[i + r]))
}

/// The S-box on every element of the state.
pub open spec fn spec_sigma_all(x: Seq<nat>) -> Seq<nat> {
    Seq::new(x.len(), |i: int| spec_sigma(x[i]))
}

/// The sum of `m[i][col] * x[i]` over the first `k` rows.
pub open spec fn spec_dot(x: Seq<nat>, m: Seq<Seq<nat>>, col: int, k: nat) -> nat
    decreases k,
{
    if k == 0 {
        0
    } else {
        f_add(spec_dot(x, m, col, (k - 1) as nat), f_mul(m[k - 1][col], x[k - 1]))
    }
}

/// The state multiplied by the matrix `m`.
pub open spec fn spec_mix(x: Seq<nat>, m: Seq<Seq<nat>>) -> Seq<nat> {
    Seq::new(x.len(), |i: int| spec_dot(x, m, i, x.len()))
}

/// The sum of `s[base + i] * x[i]` over the first `k` elements.
pub open spec fn spec_dot_s(x: Seq<nat>, s: Seq<nat>, base: int, k: nat) -> nat
    decreases k,
{
    if k == 0 {
        0
    } else {
        f_add(spec_dot_s(x, s, base, (k - 1) as nat), f_mul(s[base + k - 1], x[k - 1]))
    }
}

/// The state multiplied by the sparse matrix of partial round `r`.
pub open spec fn spec_mix_s(x: Seq<nat>, s: Seq<nat>, r: nat) -> Seq<nat> {
    let t = x.len() as int;
    Seq::new(
        x.len(),
        |i: int|
            if i == 0 {
                spec_dot_s(x, s, (2 * t - 1) * r, x.len())
            } else {
                f_add(x[i], f_mul(x[0], s[(2 * t - 1) * r + t + i - 1]))
            },
    )
}

/// The state after the first constants and `k` of the opening full rounds.
pub open spec fn opening(tb: Tables, x0: Seq<nat>, k: nat) -> Seq<nat>
    decreases k,
{
    if k == 0 {
        spec_ark(x0, tb.c, 0)
    } else {
        spec_mix(
            spec_ark(spec_sigma_all(opening(tb, x0, (k - 1) as nat)), tb.c, (k * tb.t) as int),
            tb.m,
        )
    }
}

/// The state after `k` of the partial rounds.
pub open spec fn partial(tb: Tables, x0: Seq<nat>, k: nat) -> Seq<nat>
    decreases k,
{
    if k == 0 {
        spec_mix(spec_ark(spec_sigma_all(opening(tb, x0, 3)), tb.c, (4 * tb.t) as int), tb.p)
    } else {
        let before = partial(tb, x0, (k - 1) as nat);
        let head = f_add(spec_sigma(before[0]), tb.c[5 * tb.t + k - 1]);
        spec_mix_s(before.update(0, head), tb.s, (k - 1) as nat)
    }
}

/// The state after `k` of the closing full rounds.
pub open spec fn closing(tb: Tables, x0: Seq<nat>, k: nat) -> Seq<nat>
    decreases k,
{
    if k == 0 {
        partial(tb, x0, tb.n_rounds_p)
    } else {
        spec_mix(
            spec_ark(
                spec_sigma_all(closing(tb, x0, (k - 1) as nat)),
                tb.c,
                5 * tb.t + (k - 1) * tb.t + tb.n_rounds_p,
            ),
            tb.m,
        )
    }
}

/// The digest of `input` under the tables for width `input.len() + 1`.
pub open spec fn spec_permute(tb: Tables, input: Seq<nat>) -> nat {
    let x0 = seq![0nat] + input;
    spec_dot(spec_sigma_all(closing(tb, x0, 3)), tb.m, 0, tb.t)
}

/// The S-box.
pub fn sigma(x: Scalar) -> (r: Scalar)
    ensures
        r@ == spec_sigma(x@),
{
    x.pow(5)
}

/// The S-box on every element of the state.
pub fn sigma_all(x: Vec<Scalar>) -> (y: Vec<Scalar>)
    ensures
        vals(y@) == spec_sigma_all(vals(x@)),
        y@.len() == x@.len(),
{
    let mut y: Vec<Scalar> = Vec::new();
    let mut i: usize = 0;
    while i < x.len()
        invariant
            i <= x@.len(),
            y@.len() == i,
            forall|j: int| 0 <= j < i ==> (#[trigger] y@[j])@ == spec_sigma(x@[j]@),
        decreases x@.len() - i,
    {
        y.push(sigma(x[i]));
        i += 1;
    }
    proof {
        assert(vals(y@) =~= spec_sigma_all(vals(x@)));
    }
    y
}

/// Adds the round constants `c[r ..]` to the state.
pub fn ark(x: Vec<Scalar>, c: &Vec<Scalar>, r: usize) -> (y: Vec<Scalar>)
    requires
        x@.len() + r <= c@.len(),
    ensures
        vals(y@) == spec_ark(vals(x@), vals(c@), r as int),
        y@.len() == x@.len(),
{
    let mut y: Vec<Scalar> = Vec::new();
    let mut i: usize = 0;
    let n: usize = c.len();
    while i < x.len()
        invariant
            i <= x@.len(),
            x@.len() + r <= n,
            n == c@.len(),
            y@.len() == i,
            forall|j: int| 0 <= j < i ==> (#[trigger] y@[j])@ == f_add(x@[j]@, c@[j + r]@),
        decreases x@.len() - i,
    {
        y.push(x[i].add(&c[i + r]));
        i += 1;
    }
    proof {
        assert(vals(y@) =~= spec_ark(vals(x@), vals(c@), r as int));
    }
    y
}

/// Column `s` of the state multiplied by the matrix `m`.
pub fn mix_last(x: &Vec<Scalar>, s: usize, m: &Vec<Vec<Scalar>>) -> (r: Scalar)
    requires
        m@.len() == x@.len(),
        forall|i: int| 0 <= i < m@.len() ==> s < (#[trigger] m@[i])@.len(),
    ensures
        r@ == spec_dot(vals(x@), mvals(m@), s as int, x@.len()),
{
    let mut acc: Scalar = Scalar::zero();
    let mut i: usize = 0;
    while i < x.len()
        invariant
            i <= x@.len(),
            m@.len() == x@.len(),
            forall|i: int| 0 <= i < m@.len() ==> s < (#[trigger] m@[i])@.len(),
            acc@ == spec_dot(vals(x@), mvals(m@), s as int, i as nat),
        decreases x@.len() - i,
    {
        let term: Scalar = m[i][s].mul(&x[i]);
        acc = acc.add(&term);
        i += 1;
    }
    acc
}

/// The state multiplied by the matrix `m`.
pub fn mix(x: &Vec<Scalar>, m: &Vec<Vec<Scalar>>) -> (y: Vec<Scalar>)
    requires
        m@.len() == x@.len(),
        forall|i: int| 0 <= i < m@.len() ==> (#[trigger] m@[i])@.len() == x@.len(),
    ensures
        vals(y@) == spec_mix(vals(x@), mvals(m@)),
        y@.len() == x@.len(),
{
    let mut y: Vec<Scalar> = Vec::new();
    let mut i: usize = 0;
    while i < x.len()
        invariant
            i <= x@.len(),
            m@.len() == x@.len(),
            forall|i: int| 0 <= i < m@.len() ==> (#[trigger] m@[i])@.len() == x@.len(),
            y@.len() == i,
            forall|j: int|
                0 <= j < i ==> (#[trigger] y@[j])@ == spec_dot(vals(x@), mvals(m@), j, x@.len()),
        decreases x@.len() - i,
    {
        y.push(mix_last(x, i, m));
        i += 1;
    }
    proof {
        assert(vals(y@) =~= spec_mix(vals(x@), mvals(m@)));
    }
    y
}

/// The state multiplied by the sparse matrix of partial round `r`.
pub fn mix_s(x: &Vec<Scalar>, s: &Vec<Scalar>, r: usize) -> (y: Vec<Scalar>)
    requires
        x@.len() >= 1,
        (2 * x@.len() - 1) * (r + 1) <= s@.len(),
    ensures
        vals(y@) == spec_mix_s(vals(x@), vals(s@), r as nat),
        y@.len() == x@.len(),
{
    let t: usize = x.len();
    let slen: usize = s.len();
    proof {
        assert((2 * t - 1) * (r + 1) == (2 * t - 1) * r + (2 * t - 1)) by (nonlinear_arith);
        assert((2 * t - 1) * r >= 0) by (nonlinear_arith)
            requires
                t >= 1,
                r >= 0,
        ;
    }
    let base: usize = (t - 1 + t) * r;
    let mut acc: Scalar = Scalar::zero();
    let mut i: usize = 0;
    while i < t
        invariant
            i <= t,
            t == x@.len(),
            slen == s@.len(),
            base + 2 * t - 1 <= slen,
            acc@ == spec_dot_s(vals(x@), vals(s@), base as int, i as nat),
        decreases t - i,
    {
        let term: Scalar = s[base + i].mul(&x[i]);
        acc = acc.add(&term);
        i += 1;
    }
    let mut y: Vec<Scalar> = Vec::new();
    y.push(acc);
    let mut k: usize = 1;
    while k < t
        invariant
            1 <= k <= t,
            t == x@.len(),
            slen == s@.len(),
            base == (2 * t - 1) * r,
            base + 2 * t - 1 <= slen,
            y@.len() == k,
            y@[0]@ == spec_dot_s(vals(x@), vals(s@), base as int, t as nat),
            forall|j: int|
                1 <= j < k ==> (#[trigger] y@[j])@ == f_add(
                    x@[j]@,
                    f_mul(x@[0]@, s@[base + t + j - 1]@),
                ),
        decreases t - k,
    {
        let term: Scalar = x[0].mul(&s[base + t + k - 1]);
        y.push(x[k].add(&term));
        k += 1;
    }
    proof {
        assert(vals(y@) =~= spec_mix_s(vals(x@), vals(s@), r as nat));
    }
    y
}

/// A matrix of elements is square exactly where the matrix of its values is.
pub proof fn lemma_mvals_square(m: Seq<Vec<Scalar>>, t: nat)
    ensures
        (m.len() == t && forall|i: int| 0 <= i < t ==> (#[trigger] m[i])@.len() == t) <==> (mvals(
            m,
        ).len() == t && forall|i: int| 0 <= i < t ==> (#[trigger] mvals(m)[i]).len() == t),
{
    if mvals(m).len() == t && forall|i: int| 0 <= i < t ==> (#[trigger] mvals(m)[i]).len() == t {
        assert forall|i: int| 0 <= i < t implies (#[trigger] m[i])@.len() == t by {
            assert(mvals(m)[i].len() == t);
        }
    }
    if m.len() == t && forall|i: int| 0 <= i < t ==> (#[trigger] m[i])@.len() == t {
        assert forall|i: int| 0 <= i < t implies (#[trigger] mvals(m)[i]).len() == t by {
            assert(m[i]@.len() == t);
        }
    }
}

/// The tables of round constants and matrices for one state width.
pub struct PoseidonParams {
    t: usize,
    n_rounds_p: usize,
    c: Vec<Scalar>,
    s: Vec<Scalar>,
    m: Vec<Vec<Scalar>>,
    p: Vec<Vec<Scalar>>,
}

impl View for PoseidonParams {
    type V = Tables;

    closed spec fn view(&self) -> Tables {
        Tables {
            t: self.t as nat,
            n_rounds_p: self.n_rounds_p as nat,
            c: vals(self.c@),
            s: vals(self.s@),
            m: mvals(self.m@),
            p: mvals(self.p@),
        }
    }
}

/// Whether every row of `m` has exactly `t` elements.
fn square(m: &Vec<Vec<Scalar>>, t: usize) -> (b: bool)
    ensures
        b == (m@.len() == t && forall|i: int| 0 <= i < t ==> (#[trigger] m@[i])@.len() == t),
{
    if m.len() != t {
        return false;
    }
    let mut i: usize = 0;
    while i < t
        invariant
            i <= t,
            m@.len() == t,
            forall|j: int| 0 <= j < i ==> (#[trigger] m@[j])@.len() == t,
        decreases t - i,
    {
        if m[i].len() != t {
            return false;
        }
        i += 1;
    }
    true
}

impl PoseidonParams {
    #[verifier::type_invariant]
    closed spec fn inv(self) -> bool {
        valid_tables(self@)
    }

    /// Tables for width `t`, where they are large enough for it.
    pub fn new(
        t: usize,
        n_rounds_p: usize,
        c: Vec<Scalar>,
        s: Vec<Scalar>,
        m: Vec<Vec<Scalar>>,
        p: Vec<Vec<Scalar>>,
    ) -> (r: Option<PoseidonParams>)
        ensures
            r is Some <==> valid_tables(
                Tables {
                    t: t as nat,
                    n_rounds_p: n_rounds_p as nat,
                    c: vals(c@),
                    s: vals(s@),
                    m: mvals(m@),
                    p: mvals(p@),
                },
            ),
            r is Some ==> r.unwrap()@ == (Tables {
                t: t as nat,
                n_rounds_p: n_rounds_p as nat,
                c: vals(c@),
                s: vals(s@),
                m: mvals(m@),
                p: mvals(p@),
            }),
    {
        if t < 2 {
            return None;
        }
        let clen: usize = c.len();
        let slen: usize = s.len();
        proof {
            assert((2 * t - 1) * n_rounds_p >= 0) by (nonlinear_arith)
                requires
                    t >= 1,
                    n_rounds_p >= 0,
            ;
        }
        let need_c: usize = match t.checked_mul(8) {
            None => {
                return None;
            },
            Some(a) => match a.checked_add(n_rounds_p) {
                None => {
                    return None;
                },
                Some(b) => b,
            },
        };
        if c.len() < need_c {
            return None;
        }
        let need_s: usize = match (t - 1 + t).checked_mul(n_rounds_p) {
            None => {
                return None;
            },
            Some(a) => a,
        };
        if s.len() < need_s {
            return None;
        }
        proof {
            lemma_mvals_square(m@, t as nat);
            lemma_mvals_square(p@, t as nat);
        }
        if !square(&m, t) || !square(&p, t) {
            return None;
        }
        Some(PoseidonParams { t, n_rounds_p, c, s, m, p })
    }

    /// The state width.
    pub fn width(&self) -> (t: usize)
        ensures
            t == self@.t,
            valid_tables(self@),
    {
        proof {
            use_type_invariant(self);
        }
        self.t
    }

    /// The digest of `input`, which must fill the state but for its first element.
    pub fn permute(&self, input: &Vec<Scalar>) -> (r: Scalar)
        requires
            input@.len() + 1 == self@.t,
        ensures
            r@ == spec_permute(self@, vals(input@)),
    {
        proof {
            use_type_invariant(self);
        }
        let t: usize = self.t;
        let n_p: usize = self.n_rounds_p;
        let clen: usize = self.c.len();
        let slen: usize = self.s.len();
        let ghost tb = self@;
        let ghost x0 = seq![0nat] + vals(input@);
        proof {
            lemma_mvals_square(self.m@, t as nat);
            lemma_mvals_square(self.p@, t as nat);
            assert((2 * t - 1) * n_p >= 0) by (nonlinear_arith)
                requires
                    t >= 1,
                    n_p >= 0,
            ;
        }
        let mut state: Vec<Scalar> = Vec::new();
        state.push(Scalar::zero());
        let mut i: usize = 0;
        while i < input.len()
            invariant
                i <= input@.len(),
                state@.len() == i + 1,
                state@[0]@ == 0,
                forall|j: int| 1 <= j <= i ==> (#[trigger] state@[j])@ == input@[j - 1]@,
            decreases input@.len() - i,
        {
            state.push(input[i]);
            i += 1;
        }
        proof {
            assert(vals(state@) =~= x0);
        }
        state = ark(state, &self.c, 0);
        let mut k: usize = 0;
        while k < N_ROUNDS_F / 2 - 1
            invariant
                k <= 3,
                tb == self@,
                valid_tables(tb),
                t == tb.t,
                clen == self.c@.len(),
                8 * t + n_p <= clen,
                self.m@.len() == t,
                forall|i: int| 0 <= i < t ==> (#[trigger] self.m@[i])@.len() == t,
                n_p == tb.n_rounds_p,
                state@.len() == t,
                vals(state@) == opening(tb, x0, k as nat),
            decreases 3 - k,
        {
            state = sigma_all(state);
            proof {
                assert((k + 1) * t <= 4 * t) by (nonlinear_arith)
                    requires
                        k <= 2,
                        t >= 0,
                ;
            }
            state = ark(state, &self.c, (k + 1) * t);
            state = mix(&state, &self.m);
            k += 1;
        }
        state = sigma_all(state);
        state = ark(state, &self.c, 4 * t);
        state = mix(&state, &self.p);
        let mut r: usize = 0;
        while r < n_p
            invariant
                r <= n_p,
                tb == self@,
                valid_tables(tb),
                t == tb.t,
                n_p == tb.n_rounds_p,
                clen == self.c@.len(),
                slen == self.s@.len(),
                8 * t + n_p <= clen,
                (2 * t - 1) * n_p <= slen,
                state@.len() == t,
                vals(state@) == partial(tb, x0, r as nat),
            decreases n_p - r,
        {
            let ghost before = vals(state@);
            let head: Scalar = sigma(state[0]).add(&self.c[5 * t + r]);
            state.set(0, head);
            proof {
                assert(vals(state@) =~= before.update(0, head@));
                assert((2 * t - 1) * (r + 1) <= (2 * t - 1) * n_p) by (nonlinear_arith)
                    requires
                        r + 1 <= n_p,
                        t >= 1,
                ;
            }
            state = mix_s(&state, &self.s, r);
            r += 1;
        }
        let mut k: usize = 0;
        while k < N_ROUNDS_F / 2 - 1
            invariant
                k <= 3,
                tb == self@,
                valid_tables(tb),
                t == tb.t,
                n_p == tb.n_rounds_p,
                clen == self.c@.len(),
                8 * t + n_p <= clen,
                self.m@.len() == t,
                forall|i: int| 0 <= i < t ==> (#[trigger] self.m@[i])@.len() == t,
                state@.len() == t,
                vals(state@) == closing(tb, x0, k as nat),
            decreases 3 - k,
        {
            state = sigma_all(state);
            proof {
                assert(k * t <= 2 * t) by (nonlinear_arith)
                    requires
                        k <= 2,
                        t >= 0,
                ;
            }
            state = ark(state, &self.c, 5 * t + k * t + n_p);
            state = mix(&state, &self.m);
            k += 1;
        }
        state = sigma_all(state);
        mix_last(&state, 0, &self.m)
    }
}

/// The permutation for the state widths 2, 3, 4, ...: the tables for width
/// `t` stand at position `t - 2`. The widths 3, 4 and 5 are always there.
pub struct Poseidon {
    widths: Vec<PoseidonParams>,
}

impl View for Poseidon {
    type V = Seq<Tables>;

    closed spec fn view(&self) -> Seq<Tables> {
        Seq::new(self.widths@.len(), |i: int| self.widths@[i]@)
    }
}

/// One table per width from 2 on, in order, and at least up to width 5.
pub open spec fn valid_widths(w: Seq<Tables>) -> bool {
    &&& w.len() >= 4
    &&& forall|i: int| 0 <= i < w.len() ==> (#[trigger] w[i]).t == i + 2 && valid_tables(w[i])
}

impl Poseidon {
    #[verifier::type_invariant]
    closed spec fn inv(self) -> bool {
        valid_widths(self@)
    }

    /// The permutation over `widths`, where position `i` holds the tables
    /// for width `i + 2` and the widths reach 5.
    pub fn new(widths: Vec<PoseidonParams>) -> (r: Option<Poseidon>)
        ensures
            r is Some <==> valid_widths(Seq::new(widths@.len(), |i: int| widths@[i]@)),
            r is Some ==> r.unwrap()@ == Seq::new(widths@.len(), |i: int| widths@[i]@),
    {
        let ghost w = Seq::new(widths@.len(), |i: int| widths@[i]@);
        if widths.len() < 4 {
            return None;
        }
        let mut i: usize = 0;
        while i < widths.len()
            invariant
                i <= widths@.len(),
                w == Seq::new(widths@.len(), |i: int| widths@[i]@),
                forall|j: int| 0 <= j < i ==> (#[trigger] w[j]).t == j + 2 && valid_tables(w[j]),
            decreases widths@.len() - i,
        {
            let t: usize = widths[i].width();
            if i > usize::MAX - 2 || t != i + 2 {
                proof {
                    assert(w[i as int].t != i + 2);
                }
                return None;
            }
            i += 1;
        }
        Some(Poseidon { widths })
    }

    /// The digest of `input`.
    pub fn poseidon(&self, input: &Vec<Scalar>) -> (r: Scalar)
        requires
            1 <= input@.len() <= self@.len(),
        ensures
            r@ == spec_permute(self@[input@.len() - 1], vals(input@)),
            valid_widths(self@),
    {
        proof {
            use_type_invariant(self);
            assert(self@[input@.len() - 1].t == input@.len() + 1);
        }
        self.widths[input.len() - 1].permute(input)
    }

    /// The compression of two elements.
    pub fn hash2(&self, a: Scalar, b: Scalar) -> (r: Scalar)
        ensures
            r@ == spec_permute(self@[1], seq![a@, b@]),
            valid_widths(self@),
    {
        proof {
            use_type_invariant(self);
        }
        let mut input: Vec<Scalar> = Vec::new();
        input.push(a);
        input.push(b);
        proof {
            assert(vals(input@) =~= seq![a@, b@]);
        }
        self.poseidon(&input)
    }

    /// The digest of three elements.
    pub fn hash3(&self, a: Scalar, b: Scalar, c: Scalar) -> (r: Scalar)
        ensures
            r@ == spec_permute(self@[2], seq![a@, b@, c@]),
            valid_widths(self@),
    {
        proof {
            use_type_invariant(self);
        }
        let mut input: Vec<Scalar> = Vec::new();
        input.push(a);
        input.push(b);
        input.push(c);
        proof {
            assert(vals(input@) =~= seq![a@, b@, c@]);
        }
        self.poseidon(&input)
    }

    /// The digest of four elements.
    pub fn hash4(&self, a: Scalar, b: Scalar, c: Scalar, d: Scalar) -> (r: Scalar)
        ensures
            r@ == spec_permute(self@[3], seq![a@, b@, c@, d@]),
            valid_widths(self@),
    {
        proof {
            use_type_invariant(self);
        }
        let mut input: Vec<Scalar> = Vec::new();
        input.push(a);
        input.push(b);
        input.push(c);
        input.push(d);
        proof {
            assert(vals(input@) =~= seq![a@, b@, c@, d@]);
        }
        self.poseidon(&input)
    }
}

} // verus!
