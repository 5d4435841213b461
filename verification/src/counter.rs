//! A single mutable counter in a signed 32-bit range.
//!
//! The counter wraps around on overflow: incrementing `i32::MAX` yields
//! `i32::MIN`, and decrementing `i32::MIN` yields `i32::MAX`. This is the
//! documented overflow policy for the counter operations.

use vstd::prelude::*;

verus! {

/// The value that one increment step produces, with wraparound at `i32::MAX`.
pub open spec fn wrap_inc(v: int) -> int {
    if v == i32::MAX { i32::MIN as int } else { v + 1 }
}

/// The value that one decrement step produces, with wraparound at `i32::MIN`.
pub open spec fn wrap_dec(v: int) -> int {
    if v == i32::MIN { i32::MAX as int } else { v - 1 }
}

/// `v` after `n` increment steps.
pub open spec fn inc_n(v: int, n: nat) -> int
    decreases n,
{
    if n == 0 { v } else { inc_n(wrap_inc(v), (n - 1) as nat) }
}

/// `v` after `n` decrement steps.
pub open spec fn dec_n(v: int, n: nat) -> int
    decreases n,
{
    if n == 0 { v } else { dec_n(wrap_dec(v), (n - 1) as nat) }
}

pub open spec fn in_i32_range(v: int) -> bool {
    i32::MIN <= v <= i32::MAX
}

/// A counter owned by one registry instance.
pub struct Counter {
    pub count: i32,
}

impl Counter {
    /// A fresh counter starts at zero.
    pub fn new() -> (r: Counter)
        ensures
            r.count == 0,
    {
        Counter { count: 0 }
    }

    /// Adds one to the counter, wrapping at `i32::MAX`, and returns the new value.
    pub fn increment(&mut self) -> (r: i32)
        ensures
            final(self).count as int == wrap_inc(old(self).count as int),
            r == final(self).count,
    {
        if self.count == i32::MAX {
            self.count = i32::MIN;
        } else {
            self.count = self.count + 1;
        }
        self.count
    }

    /// Subtracts one from the counter, wrapping at `i32::MIN`, and returns the new value.
    pub fn decrement(&mut self) -> (r: i32)
        ensures
            final(self).count as int == wrap_dec(old(self).count as int),
            r == final(self).count,
    {
        if self.count == i32::MIN {
            self.count = i32::MAX;
        } else {
            self.count = self.count - 1;
        }
        self.count
    }

    /// Returns the current value without changing anything.
    pub fn get_value(&self) -> (r: i32)
        ensures
            r == self.count,
    {
        self.count
    }
}

proof fn lemma_wrap_inc_range(v: int)
    requires
        in_i32_range(v),
    ensures
        in_i32_range(wrap_inc(v)),
{
}

proof fn lemma_wrap_dec_range(v: int)
    requires
        in_i32_range(v),
    ensures
        in_i32_range(wrap_dec(v)),
{
}

proof fn lemma_inc_n_range(v: int, n: nat)
    requires
        in_i32_range(v),
    ensures
        in_i32_range(inc_n(v, n)),
    decreases n,
{
    if n > 0 {
        lemma_inc_n_range(wrap_inc(v), (n - 1) as nat);
    }
}

/// Peeling the last step instead of the first: `n` increments are `n - 1`
/// increments followed by one more.
proof fn lemma_inc_n_last(v: int, n: nat)
    requires
        n > 0,
    ensures
        inc_n(v, n) == wrap_inc(inc_n(v, (n - 1) as nat)),
    decreases n,
{
    if n == 1 {
        assert(inc_n(v, 1) == inc_n(wrap_inc(v), 0));
    } else {
        lemma_inc_n_last(wrap_inc(v), (n - 1) as nat);
        assert(inc_n(v, n) == inc_n(wrap_inc(v), (n - 1) as nat));
        assert(inc_n(v, (n - 1) as nat) == inc_n(wrap_inc(v), (n - 2) as nat));
    }
}

/// Incrementing `n` times and then decrementing `n` times restores the
/// original counter value, whatever `n` is, wraparound included.
pub proof fn lemma_increment_decrement_round_trip(v: int, n: nat)
    requires
        in_i32_range(v),
    ensures
        dec_n(inc_n(v, n), n) == v,
    decreases n,
{
    if n > 0 {
        lemma_inc_n_last(v, n);
        lemma_inc_n_range(v, (n - 1) as nat);
        lemma_increment_decrement_round_trip(v, (n - 1) as nat);
    }
}

/// One serialized counter call: an increment when the flag is set, else a
/// decrement.
pub open spec fn apply_delta(v: int, inc: bool) -> int {
    if inc { wrap_inc(v) } else { wrap_dec(v) }
}

/// The counter after a serialized sequence of increment and decrement
/// calls, in order.
pub open spec fn apply_deltas(v: int, ds: Seq<bool>) -> int
    decreases ds.len(),
{
    if ds.len() == 0 {
        v
    } else {
        apply_deltas(apply_delta(v, ds[0]), ds.drop_first())
    }
}

/// How many of the calls are increments.
pub open spec fn count_incs(ds: Seq<bool>) -> nat
    decreases ds.len(),
{
    if ds.len() == 0 {
        0
    } else {
        count_incs(ds.drop_first()) + if ds[0] { 1nat } else { 0nat }
    }
}

/// How many of the calls are decrements.
pub open spec fn count_decs(ds: Seq<bool>) -> nat
    decreases ds.len(),
{
    if ds.len() == 0 {
        0
    } else {
        count_decs(ds.drop_first()) + if ds[0] { 0nat } else { 1nat }
    }
}

/// Any interleaving of serialized increments and decrements ends where the
/// canonical order does: all the increments first, then all the decrements.
/// The order of the calls is irrelevant; no update is lost.
pub proof fn lemma_apply_deltas_order_irrelevant(v: int, ds: Seq<bool>)
    requires
        in_i32_range(v),
    ensures
        apply_deltas(v, ds) == dec_n(inc_n(v, count_incs(ds)), count_decs(ds)),
    decreases ds.len(),
{
    if ds.len() > 0 {
        let rest = ds.drop_first();
        let nt = count_incs(rest);
        let nf = count_decs(rest);
        if ds[0] {
            lemma_wrap_inc_range(v);
            lemma_apply_deltas_order_irrelevant(wrap_inc(v), rest);
            assert(inc_n(wrap_inc(v), nt) == inc_n(v, nt + 1));
        } else {
            lemma_wrap_dec_range(v);
            lemma_apply_deltas_order_irrelevant(wrap_dec(v), rest);
            if nt == 0 {
                assert(inc_n(wrap_dec(v), 0) == wrap_dec(v));
                assert(dec_n(v, nf + 1) == dec_n(wrap_dec(v), nf));
            } else {
                lemma_inc_n_last(wrap_dec(v), nt);
                assert(inc_n(wrap_dec(v), nt) == wrap_inc(inc_n(wrap_dec(v), (nt - 1) as nat)))
                ;
                assert(inc_n(wrap_dec(v), nt) == inc_n(v, (nt - 1) as nat)) by {
                    assert(inc_n(wrap_dec(v), nt) == inc_n(wrap_inc(wrap_dec(v)), (nt
                        - 1) as nat));
                };
                lemma_inc_n_last(v, nt);
                lemma_inc_n_range(v, (nt - 1) as nat);
                assert(wrap_dec(inc_n(v, nt)) == inc_n(v, (nt - 1) as nat));
                assert(dec_n(inc_n(v, nt), nf + 1) == dec_n(wrap_dec(inc_n(v, nt)), nf));
            }
        }
    }
}

proof fn lemma_inc_n_no_wrap(v: int, n: nat)
    requires
        in_i32_range(v),
        v + n <= i32::MAX,
    ensures
        inc_n(v, n) == v + n,
    decreases n,
{
    if n > 0 {
        lemma_inc_n_no_wrap(v + 1, (n - 1) as nat);
    }
}

proof fn lemma_dec_n_no_wrap(v: int, n: nat)
    requires
        in_i32_range(v),
        v - n >= i32::MIN,
    ensures
        dec_n(v, n) == v - n,
    decreases n,
{
    if n > 0 {
        lemma_dec_n_no_wrap(v - 1, (n - 1) as nat);
    }
}

/// Serialized increments and decrements, in any interleaving, leave the
/// counter at the net sum of all deltas, as long as that net course stays
/// in the 32-bit range: no update is lost.
pub proof fn lemma_serialized_deltas_net_sum(v: int, ds: Seq<bool>)
    requires
        in_i32_range(v),
        v + count_incs(ds) <= i32::MAX,
        v + count_incs(ds) - count_decs(ds) >= i32::MIN,
    ensures
        apply_deltas(v, ds) == v + count_incs(ds) - count_decs(ds),
{
    lemma_apply_deltas_order_irrelevant(v, ds);
    lemma_inc_n_no_wrap(v, count_incs(ds));
    lemma_dec_n_no_wrap(v + count_incs(ds), count_decs(ds));
}

} // verus!
