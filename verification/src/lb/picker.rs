//! Policies that choose which backend serves the next request.
use vstd::prelude::*;

verus! {

#[derive(Debug)]
pub enum PickerError {
    /// The number of backends and the number of weights differ.
    InconsistentLength(usize, usize),
}

/// The text of a picker error.
pub open spec fn picker_error_text(e: PickerError) -> Seq<char> {
    match e {
        PickerError::InconsistentLength(want, got) => "Picker: inconsistent number of backends "@
            + crate::text::decimal(want as nat) + " vs "@ + crate::text::decimal(got as nat),
    }
}

impl PickerError {
    /// A description of the error.
    pub fn message(&self) -> (s: String)
        ensures
            s@ == picker_error_text(*self),
    {
        match self {
            PickerError::InconsistentLength(want, got) => {
                let mut s = String::new();
                crate::text::push_str(&mut s, "Picker: inconsistent number of backends ");
                crate::text::push_number(&mut s, *want as u64, 10);
                crate::text::push_str(&mut s, " vs ");
                crate::text::push_number(&mut s, *got as u64, 10);
                s
            },
        }
    }
}

/// A policy that picks the index of the backend for the next request.
pub trait Picker: Sized {
    /// Whether the policy can pick among `n` backends in its current state.
    spec fn can_pick(&self, n: nat) -> bool;

    /// Whether, asked to pick among `n` backends in this state, the policy
    /// may answer `r` and move to the state `next`.
    spec fn picks(&self, n: nat, r: Result<usize, PickerError>, next: Self) -> bool;

    /// Picks a backend among `num_backends`.
    fn pick_backend(&mut self, num_backends: usize) -> (r: Result<usize, PickerError>)
        requires
            old(self).can_pick(num_backends as nat),
        ensures
            old(self).picks(num_backends as nat, r, *final(self)),
            num_backends > 0 ==> (r matches Ok(i) ==> i < num_backends),
    ;
}

// ---------------------------------------------------------------------------
// Round robin
// ---------------------------------------------------------------------------

/// The backend that round robin picks after `last` among `n` backends.
pub open spec fn rr_next(last: Option<usize>, n: nat) -> usize {
    match last {
        Some(l) => if l >= n - 1 {
            0
        } else {
            (l + 1) as usize
        },
        None => 0,
    }
}

/// Picks the backends in turn, starting with the first.
#[derive(Debug)]
pub struct RRPicker {
    last_index: Option<usize>,
}

impl RRPicker {
    /// The backend picked last, if any.
    pub closed spec fn last(&self) -> Option<usize> {
        self.last_index
    }

    pub fn new() -> (p: RRPicker)
        ensures
            p.last() is None,
    {
        RRPicker { last_index: None }
    }

    /// Picks the backend after the one picked last, wrapping around.
    pub fn pick(&mut self, num_backends: usize) -> (i: usize)
        requires
            num_backends > 0 || old(self).last() is None,
        ensures
            i == rr_next(old(self).last(), num_backends as nat),
            final(self).last() == Some(i),
    {
        match self.last_index {
            Some(last_index) => {
                if last_index >= num_backends - 1 {
                    self.last_index = Some(0);
                    0
                } else {
                    self.last_index = Some(last_index + 1);
                    last_index + 1
                }
            },
            None => {
                self.last_index = Some(0);
                0
            },
        }
    }
}

impl Default for RRPicker {
    fn default() -> (p: RRPicker)
        ensures
            p.last() is None,
    {
        RRPicker::new()
    }
}

impl Picker for RRPicker {
    open spec fn can_pick(&self, n: nat) -> bool {
        n > 0 || self.last() is None
    }

    open spec fn picks(&self, n: nat, r: Result<usize, PickerError>, next: Self) -> bool {
        &&& r == Ok::<usize, PickerError>(rr_next(self.last(), n))
        &&& next.last() == Some(rr_next(self.last(), n))
    }

    fn pick_backend(&mut self, num_backends: usize) -> (r: Result<usize, PickerError>)
        ensures
            r == Ok::<usize, PickerError>(rr_next(old(self).last(), num_backends as nat)),
            final(self).last() == Some(rr_next(old(self).last(), num_backends as nat)),
    {
        Ok(self.pick(num_backends))
    }
}

/// The backend that round robin picks at step `k` (counting from 0) when it
/// starts afresh among `n` backends.
pub open spec fn rr_pick_at(n: nat, k: nat) -> usize
    decreases k,
{
    if k == 0 {
        rr_next(None, n)
    } else {
        rr_next(Some(rr_pick_at(n, (k - 1) as nat)), n)
    }
}

/// Round robin visits the backends in order: started afresh among `n`
/// backends, its pick at step `k` is `k mod n`. Over `m * n` picks every
/// backend is therefore picked `m` times.
pub proof fn rr_picks_cycle(n: nat, k: nat)
    requires
        0 < n <= usize::MAX,
    ensures
        rr_pick_at(n, k) == k % n,
    decreases k,
{
    if k > 0 {
        rr_picks_cycle(n, (k - 1) as nat);
        let prev = rr_pick_at(n, (k - 1) as nat);
        let x = (k - 1) as int;
        let d = n as int;
        let q = x / d;
        let r = x % d;
        vstd::arithmetic::div_mod::lemma_fundamental_div_mod(x, d);
        assert(x == d * q + r);
        assert(0 <= r < d);
        assert(prev == r);
        if r == d - 1 {
            assert(k == d * (q + 1) + 0) by (nonlinear_arith)
                requires
                    x == d * q + r,
                    r == d - 1,
                    k == x + 1,
            ;
            vstd::arithmetic::div_mod::lemma_fundamental_div_mod_converse(k as int, d, q + 1, 0);
            assert(rr_pick_at(n, k) == 0);
        } else {
            assert(k == d * q + (r + 1));
            vstd::arithmetic::div_mod::lemma_fundamental_div_mod_converse(k as int, d, q, r + 1);
            assert(rr_pick_at(n, k) == r + 1);
        }
    } else {
        vstd::arithmetic::div_mod::lemma_small_mod(0, n);
    }
}

// ---------------------------------------------------------------------------
// Weighted round robin
// ---------------------------------------------------------------------------

/// What weighted round robin picks after state `st` among `n` backends, and
/// its next state: the backend picked last, and how many times in a row.
pub open spec fn wrr_next(w: Seq<usize>, st: Option<(usize, usize)>, n: nat) -> (usize, (
    usize,
    usize,
)) {
    match st {
        None => (0, (0, 0)),
        Some((l, i)) => if i < w[l as int] - 1 {
            (l, (l, (i + 1) as usize))
        } else if l >= n - 1 {
            (0, (0, 0))
        } else {
            ((l + 1) as usize, ((l + 1) as usize, 0))
        },
    }
}

/// Picks each backend as many times in a row as its weight, in turn.
#[derive(Debug)]
pub struct WeightedRRPicker {
    weights: Vec<usize>,
    last: Option<(usize, usize)>,
}

impl WeightedRRPicker {
    pub closed spec fn weights(&self) -> Seq<usize> {
        self.weights@
    }

    /// The backend picked last and the number of earlier picks of it in the
    /// current turn.
    pub closed spec fn state(&self) -> Option<(usize, usize)> {
        self.last
    }

    pub fn new(weights: Vec<usize>) -> (p: WeightedRRPicker)
        ensures
            p.weights() == weights@,
            p.state() is None,
    {
        WeightedRRPicker { weights, last: None }
    }
}

impl Picker for WeightedRRPicker {
    open spec fn can_pick(&self, n: nat) -> bool {
        n != self.weights().len() || match self.state() {
            None => true,
            Some((l, _)) => l < self.weights().len() && self.weights()[l as int] > 0,
        }
    }

    open spec fn picks(&self, n: nat, r: Result<usize, PickerError>, next: Self) -> bool {
        &&& next.weights() == self.weights()
        &&& if n != self.weights().len() {
            &&& r == Err::<usize, PickerError>(
                PickerError::InconsistentLength(n as usize, self.weights().len() as usize),
            )
            &&& next.state() == self.state()
        } else {
            let (i, st) = wrr_next(self.weights(), self.state(), n);
            r == Ok::<usize, PickerError>(i) && next.state() == Some(st)
        }
    }

    /// Fails if the number of backends is not the number of weights;
    /// otherwise picks the backend picked last again until it has been picked
    /// as many times as its weight, then the next one, wrapping around.
    fn pick_backend(&mut self, num_backends: usize) -> (r: Result<usize, PickerError>)
        ensures
            final(self).weights() == old(self).weights(),
            num_backends != old(self).weights().len() ==> (r matches Err(
                PickerError::InconsistentLength(a, b),
            ) && a == num_backends && b == old(self).weights().len() && final(self).state()
                == old(self).state()),
            num_backends == old(self).weights().len() ==> ({
                let (i, st) = wrr_next(old(self).weights(), old(self).state(), num_backends as nat);
                r matches Ok(j) && j == i && final(self).state() == Some(st)
            }),
    {
        if num_backends != self.weights.len() {
            return Err(PickerError::InconsistentLength(num_backends, self.weights.len()));
        }
        match self.last {
            Some((last_index, last_inner_index)) => {
                let last_inner_max = self.weights[last_index];
                if last_inner_index < last_inner_max - 1 {
                    self.last = Some((last_index, last_inner_index + 1));
                    return Ok(last_index);
                }
                if last_index >= num_backends - 1 {
                    self.last = Some((0, 0));
                    Ok(0)
                } else {
                    self.last = Some((last_index + 1, 0));
                    Ok(last_index + 1)
                }
            },
            None => {
                self.last = Some((0, 0));
                Ok(0)
            },
        }
    }
}

/// The total weight of the first `j` backends.
pub open spec fn weight_sum(w: Seq<usize>, j: int) -> nat
    decreases j,
{
    if j <= 0 {
        0
    } else {
        weight_sum(w, j - 1) + w[j - 1] as nat
    }
}

/// The state of weighted round robin after `k` picks among the `w.len()`
/// backends, started afresh.
pub open spec fn wrr_state_after(w: Seq<usize>, k: nat) -> Option<(usize, usize)>
    decreases k,
{
    if k == 0 {
        None
    } else {
        Some(wrr_next(w, wrr_state_after(w, (k - 1) as nat), w.len()).1)
    }
}

proof fn lemma_weight_sum_mono(w: Seq<usize>, i: int, j: int)
    requires
        0 <= i <= j <= w.len(),
    ensures
        weight_sum(w, i) <= weight_sum(w, j),
    decreases j - i,
{
    if i < j {
        lemma_weight_sum_mono(w, i, j - 1);
    }
}

proof fn lemma_mod_next(k: nat, total: nat)
    requires
        total > 0,
        k > 0,
    ensures
        ((k - 1) as nat % total) + 1 < total ==> k % total == ((k - 1) as nat % total) + 1,
        ((k - 1) as nat % total) + 1 == total ==> k % total == 0,
{
    let x = (k - 1) as int;
    let d = total as int;
    vstd::arithmetic::div_mod::lemma_fundamental_div_mod(x, d);
    let q = x / d;
    let r = x % d;
    if r + 1 < d {
        vstd::arithmetic::div_mod::lemma_fundamental_div_mod_converse(k as int, d, q, r + 1);
    } else if r + 1 == d {
        assert(k == d * (q + 1) + 0) by (nonlinear_arith)
            requires
                x == d * q + r,
                r + 1 == d,
                k == x + 1,
        ;
        vstd::arithmetic::div_mod::lemma_fundamental_div_mod_converse(k as int, d, q + 1, 0);
    }
}

/// Weighted round robin picks each backend as many times in a row as its
/// weight, in turn, and starts over: numbering the picks from 0 and laying the
/// backends' weights end to end, pick `k` is the backend whose stretch holds
/// slot `k` modulo the total weight, at position `i` within it. Every weight
/// must be at least 1.
pub proof fn wrr_picks_in_turn(w: Seq<usize>, k: nat)
    requires
        0 < w.len() <= usize::MAX,
        forall|i: int| 0 <= i < w.len() ==> w[i] >= 1,
    ensures
        wrr_state_after(w, k + 1) matches Some((j, i)) && j < w.len() && i < w[j as int]
            && weight_sum(w, j as int) + i == k % weight_sum(w, w.len() as int),
    decreases k,
{
    let n = w.len();
    let total = weight_sum(w, n as int);
    lemma_weight_sum_mono(w, 1, n as int);
    assert(weight_sum(w, 0) == 0);
    assert(weight_sum(w, 1) == w[0] as nat);
    assert(total >= 1);
    if k == 0 {
        assert(wrr_state_after(w, 0) is None);
        assert(wrr_state_after(w, 1) == Some((0usize, 0usize)));
        vstd::arithmetic::div_mod::lemma_small_mod(0, total);
    } else {
        wrr_picks_in_turn(w, (k - 1) as nat);
        let (j, i) = wrr_state_after(w, k).unwrap();
        lemma_weight_sum_mono(w, j + 1, n as int);
        lemma_mod_next(k, total);
        assert(wrr_state_after(w, k + 1) == Some(wrr_next(w, Some((j, i)), n).1));
        if (i as int) < w[j as int] - 1 {
            assert(wrr_next(w, Some((j, i)), n).1 == (j, (i + 1) as usize));
        } else if j >= n - 1 {
            assert(j == n - 1);
            assert(wrr_next(w, Some((j, i)), n).1 == (0usize, 0usize));
        } else {
            lemma_weight_sum_mono(w, j + 2, n as int);
            assert(weight_sum(w, j + 1) == weight_sum(w, j as int) + w[j as int]);
            assert(weight_sum(w, j + 2) == weight_sum(w, j + 1) + w[j + 1]);
            assert(w[j + 1] >= 1);
            assert(weight_sum(w, j + 1) < total);
            assert(wrr_next(w, Some((j, i)), n).1 == ((j + 1) as usize, 0usize));
        }
    }
}

// ---------------------------------------------------------------------------
// Random
// ---------------------------------------------------------------------------

#[verifier::external_type_specification]
#[verifier::external_body]
pub struct ExStdRng(rand::rngs::StdRng);

/// Wraps `StdRng::from_entropy`: a generator seeded from the operating system.
/// Nothing is stated of its state.
#[verifier::external_body]
fn rng_from_entropy() -> rand::rngs::StdRng {
    <rand::rngs::StdRng as rand::SeedableRng>::from_entropy()
}

/// Wraps `Rng::gen_range(0..n)`: an index drawn below `n`. The range must not
/// be empty, for `gen_range` panics on an empty range.
#[verifier::external_body]
fn gen_index(rng: &mut rand::rngs::StdRng, n: usize) -> (r: usize)
    requires
        n > 0,
    ensures
        r < n,
{
    rand::Rng::gen_range(rng, 0..n)
}

/// Picks a backend at random.
#[derive(Debug)]
pub struct RandomPicker {
    rng: rand::rngs::StdRng,
}

impl RandomPicker {
    pub fn new() -> RandomPicker {
        RandomPicker { rng: rng_from_entropy() }
    }
}

impl Default for RandomPicker {
    fn default() -> RandomPicker {
        RandomPicker::new()
    }
}

impl Picker for RandomPicker {
    open spec fn can_pick(&self, n: nat) -> bool {
        n > 0
    }

    open spec fn picks(&self, n: nat, r: Result<usize, PickerError>, next: Self) -> bool {
        r matches Ok(i) && i < n
    }

    /// Some backend below `num_backends`, whichever the generator draws.
    fn pick_backend(&mut self, num_backends: usize) -> (r: Result<usize, PickerError>)
        ensures
            r matches Ok(i) && i < num_backends,
    {
        Ok(gen_index(&mut self.rng, num_backends))
    }
}

} // verus!
