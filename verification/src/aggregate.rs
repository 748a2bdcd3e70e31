//! Aggregation of a whole listing into one heap-size total.
//!
//! The listing is split into lines the way `str::lines` splits text: lines
//! end at a line feed, and a carriage return directly before a line feed is
//! not part of the line.  A final fragment without a terminating line feed
//! is a line of its own, kept as it stands.

use vstd::prelude::*;

verus! {

/// Byte value of the line feed that terminates a line.
pub const LINE_FEED: u8 = 10;

/// Byte value of the carriage return dropped from a line end.
pub const CARRIAGE_RETURN: u8 = 13;

/// Whether `b` is anything but a line feed.
pub open spec fn is_not_line_feed(b: u8) -> bool {
    b != 10
}

/// The not-a-line-feed class as a function value, for use with
/// [`crate::recognizer::end_of_run`].
pub open spec fn not_line_feed_pred() -> spec_fn(u8) -> bool {
    |b: u8| is_not_line_feed(b)
}

/// The sequence of lines of `s`: split at each line feed, with one
/// carriage return stripped from the end of a line-feed-terminated line,
/// and the unterminated final fragment (if nonempty) kept whole.
pub open spec fn spec_lines(s: Seq<u8>) -> Seq<Seq<u8>>
    decreases s.len(),
    via spec_lines_dec
{
    if s.len() == 0 {
        Seq::empty()
    } else {
        let j = crate::recognizer::end_of_run(s, 0, not_line_feed_pred());
        if j == s.len() {
            seq![s]
        } else {
            let line = if j > 0 && s[j - 1] == 13 {
                s.subrange(0, j - 1)
            } else {
                s.subrange(0, j)
            };
            seq![line] + spec_lines(s.subrange(j + 1, s.len() as int))
        }
    }
}

#[via_fn]
proof fn spec_lines_dec(s: Seq<u8>) {
    if s.len() > 0 {
        crate::recognizer::lemma_end_of_run_bounds(s, 0, not_line_feed_pred());
    }
}

/// Number of bytes one line adds to the heap total: the extent of its
/// range when the line is heap-like, and zero otherwise.  A range whose
/// bounds decrease is the empty interval and contributes zero.
pub open spec fn line_contrib(line: Seq<u8>) -> nat {
    match crate::recognizer::spec_recognize(line) {
        Some(v) => if v.1 >= v.0 {
            (v.1 - v.0) as nat
        } else {
            0
        },
        None => 0,
    }
}

/// The summation step, as a function value shared by [`total_of`] and the
/// proofs about it.
pub open spec fn add_contrib() -> spec_fn(nat, Seq<u8>) -> nat {
    |acc: nat, line: Seq<u8>| acc + line_contrib(line)
}

/// Sum of the contributions of all lines, as an unbounded natural number.
pub open spec fn total_of(lines: Seq<Seq<u8>>) -> nat {
    lines.fold_left(0nat, add_contrib())
}

/// Lines are aggregated independently: the total of two listings laid end
/// to end is the sum of their totals.  No line's contribution depends on
/// the lines around it.
pub proof fn lemma_total_append(l1: Seq<Seq<u8>>, l2: Seq<Seq<u8>>)
    ensures
        total_of(l1 + l2) == total_of(l1) + total_of(l2),
    decreases l2.len(),
{
    if l2.len() == 0 {
        assert(l1 + l2 =~= l1);
    } else {
        lemma_total_append(l1, l2.drop_last());
        assert((l1 + l2).drop_last() =~= l1 + l2.drop_last());
        assert((l1 + l2).last() == l2.last());
    }
}

/// Aggregation is order-independent: two listings whose lines are a
/// permutation of one another — their line sequences carry equal
/// multisets — have the same total.  Summation is commutative, and no
/// line's contribution depends on its neighbours.
pub proof fn lemma_total_order_independent(l1: Seq<Seq<u8>>, l2: Seq<Seq<u8>>)
    requires
        l1.to_multiset() == l2.to_multiset(),
    ensures
        total_of(l1) == total_of(l2),
{
    let f = add_contrib();
    assert forall|x: Seq<u8>, y: Seq<u8>, v: nat| #[trigger] f(f(v, x), y) == f(f(v, y), x) by {}
    assert(vstd::seq_lib::commutative_foldl(f));
    vstd::seq_lib::lemma_fold_left_permutation(l1, l2, f, 0nat);
}

/// End of the greedy run of non-line-feed bytes starting at `from`: the
/// position of the next line feed, or the end of `s`.
fn scan_to_line_feed(s: &[u8], from: usize) -> (j: usize)
    requires
        from <= s@.len(),
    ensures
        j == crate::recognizer::end_of_run(s@, from as int, not_line_feed_pred()),
        from <= j <= s@.len(),
{
    let mut j: usize = from;
    while j < s.len() && s[j] != LINE_FEED
        invariant
            from <= j <= s@.len(),
            forall|k: int| from <= k < j ==> is_not_line_feed(s@[k]),
        decreases s@.len() - j,
    {
        j = j + 1;
    }
    proof {
        crate::recognizer::lemma_end_of_run_is(s@, from as int, j as int, not_line_feed_pred());
    }
    j
}

/// Total size, in bytes, of the heap-like mappings of the listing `buf`.
///
/// Every line is classified independently with
/// [`crate::recognizer::spec_recognize`]; lines that are not heap-like
/// contribute nothing and never fail the aggregation.  The sum saturates
/// at `usize::MAX` instead of wrapping; no realistic listing comes near
/// that bound.
pub fn sum_heap_lines(buf: &[u8]) -> (total: usize)
    ensures
        total_of(spec_lines(buf@)) <= usize::MAX as nat ==> total == total_of(spec_lines(buf@)),
        total_of(spec_lines(buf@)) > usize::MAX as nat ==> total == usize::MAX,
{
    let mut total: usize = 0;
    let mut p: usize = 0;
    let ghost mut done: Seq<Seq<u8>> = Seq::empty();
    proof {
        assert(buf@.subrange(0, buf@.len() as int) =~= buf@);
        assert(done + spec_lines(buf@) =~= spec_lines(buf@));
    }
    while p < buf.len()
        invariant
            p <= buf@.len(),
            spec_lines(buf@) == done + spec_lines(buf@.subrange(p as int, buf@.len() as int)),
            total_of(done) <= usize::MAX as nat ==> total == total_of(done),
            total_of(done) > usize::MAX as nat ==> total == usize::MAX,
        decreases buf@.len() - p,
    {
        let ghost suffix = buf@.subrange(p as int, buf@.len() as int);
        let rest = vstd::slice::slice_subrange(buf, p, buf.len());
        let j = scan_to_line_feed(rest, 0);
        let line: &[u8];
        let next_p: usize;
        if j == rest.len() {
            line = rest;
            next_p = buf.len();
            proof {
                assert(line@ =~= suffix);
                assert(spec_lines(suffix) == seq![suffix]);
                assert(buf@.subrange(next_p as int, buf@.len() as int) =~= Seq::<u8>::empty());
                assert(seq![line@] + spec_lines(
                    buf@.subrange(next_p as int, buf@.len() as int),
                ) =~= spec_lines(suffix));
            }
        } else {
            let line_end: usize = if j > 0 && rest[j - 1] == CARRIAGE_RETURN {
                j - 1
            } else {
                j
            };
            line = vstd::slice::slice_subrange(rest, 0, line_end);
            next_p = p + j + 1;
            proof {
                assert(buf@.subrange(next_p as int, buf@.len() as int) =~= suffix.subrange(
                    j + 1,
                    suffix.len() as int,
                ));
                assert(spec_lines(suffix) == seq![line@] + spec_lines(
                    buf@.subrange(next_p as int, buf@.len() as int),
                ));
            }
        }
        let line_size: usize = match crate::recognizer::recognize_heap(line) {
            Some(range) => if range.end >= range.start {
                range.end - range.start
            } else {
                0
            },
            None => 0,
        };
        proof {
            assert(line_size == line_contrib(line@));
        }
        total = if total <= usize::MAX - line_size {
            total + line_size
        } else {
            usize::MAX
        };
        proof {
            let stepped = done.push(line@);
            assert(stepped.drop_last() =~= done);
            assert(total_of(stepped) == total_of(done) + line_contrib(line@));
            assert(spec_lines(buf@) == stepped + spec_lines(
                buf@.subrange(next_p as int, buf@.len() as int),
            )) by {
                assert(done + (seq![line@] + spec_lines(
                    buf@.subrange(next_p as int, buf@.len() as int),
                )) =~= stepped + spec_lines(buf@.subrange(next_p as int, buf@.len() as int)));
            }
            done = stepped;
        }
        p = next_p;
    }
    proof {
        assert(buf@.subrange(p as int, buf@.len() as int) =~= Seq::<u8>::empty());
        assert(done + spec_lines(Seq::<u8>::empty()) =~= done);
    }
    total
}

} // verus!
