//! Recognition of a single memory-map line.
//!
//! A line has the shape `start-end perms offset device inode [pathname]`,
//! with fields separated by runs of whitespace.  A line is heap-like when
//! `start` and `end` are hex numbers, the permissions field is drawn from
//! the alphabet `{r, w, p, x, -}`, the offset field is the literal
//! `00000000`, the device field is the literal `00:00` and the inode field
//! starts with `0`.  Everything after the inode's leading `0` is ignored.
//!
//! All scanning is greedy and strictly left to right, over the raw bytes of
//! the line.  Every field class is pure ASCII, so working on bytes and
//! working on characters agree.

use vstd::prelude::*;

verus! {

/// Byte value of `-`, separating the two bounds and also a permission byte.
pub const DASH: u8 = 45;

/// Byte value of `0`, the digit every literal anonymous-mapping field uses.
pub const DIGIT_ZERO: u8 = 48;

/// Byte value of `:`, the separator inside the device field.
pub const COLON: u8 = 58;

/// A half-open interval `[start, end)` of virtual addresses, in bytes.
///
/// The grammar does not force `start <= end`; a decreasing pair denotes the
/// empty interval and contributes nothing to an aggregated total.
#[derive(Clone, Copy, Debug, PartialEq, Eq, Structural)]
pub struct AddressRange {
    pub start: usize,
    pub end: usize,
}

/// Whether `b` is an ASCII hexadecimal digit.
pub open spec fn is_hex_digit(b: u8) -> bool {
    (48 <= b && b <= 57)  // 0-9
    || (97 <= b && b <= 102)  // a-f
    || (65 <= b && b <= 70)  // A-F
}

/// Whether `b` is an ASCII whitespace byte: space, tab, line feed or
/// carriage return.
pub open spec fn is_space(b: u8) -> bool {
    b == 32 || b == 9 || b == 10 || b == 13
}

/// Whether `b` belongs to the permissions alphabet `{r, w, p, x, -}`.
pub open spec fn is_perm_byte(b: u8) -> bool {
    b == 114 || b == 119 || b == 112 || b == 120 || b == 45
}

/// Numeric value of the hex digit `b`.
pub open spec fn hex_digit_value(b: u8) -> nat
    recommends
        is_hex_digit(b),
{
    if 48 <= b && b <= 57 {
        (b - 48) as nat
    } else if 97 <= b && b <= 102 {
        (b - 87) as nat
    } else {
        (b - 55) as nat
    }
}

/// Value of `s` read as a big-endian base-16 number; every byte of `s` is
/// expected to be a hex digit.
pub open spec fn hex_value(s: Seq<u8>) -> nat
    decreases s.len(),
{
    if s.len() == 0 {
        0
    } else {
        hex_value(s.drop_last()) * 16 + hex_digit_value(s.last())
    }
}

/// The hex-digit class as a function value, for use with [`end_of_run`].
pub open spec fn hex_pred() -> spec_fn(u8) -> bool {
    |b: u8| is_hex_digit(b)
}

/// The whitespace class as a function value, for use with [`end_of_run`].
pub open spec fn space_pred() -> spec_fn(u8) -> bool {
    |b: u8| is_space(b)
}

/// The permissions class as a function value, for use with [`end_of_run`].
pub open spec fn perm_pred() -> spec_fn(u8) -> bool {
    |b: u8| is_perm_byte(b)
}

/// First position at or after `i` where `p` fails, or `s.len()` when `p`
/// holds to the end: the end of the greedy run of `p`-bytes starting at `i`.
pub open spec fn end_of_run(s: Seq<u8>, i: int, p: spec_fn(u8) -> bool) -> int
    decreases s.len() - i,
{
    if i < 0 || i >= s.len() {
        i
    } else if p(s[i]) {
        end_of_run(s, i + 1, p)
    } else {
        i
    }
}

/// The run end lies between `i` and `s.len()`, every byte of the run
/// satisfies `p`, and the byte after the run (if any) does not.
pub proof fn lemma_end_of_run_bounds(s: Seq<u8>, i: int, p: spec_fn(u8) -> bool)
    requires
        0 <= i <= s.len(),
    ensures
        i <= end_of_run(s, i, p) <= s.len(),
        forall|k: int| i <= k < end_of_run(s, i, p) ==> p(s[k]),
        end_of_run(s, i, p) < s.len() ==> !p(s[end_of_run(s, i, p)]),
    decreases s.len() - i,
{
    if i < s.len() && p(s[i]) {
        lemma_end_of_run_bounds(s, i + 1, p);
    }
}

/// A position `j` with only `p`-bytes before it (from `i`) and a non-`p`
/// byte (or the end of `s`) at it is exactly the end of the run.
pub proof fn lemma_end_of_run_is(s: Seq<u8>, i: int, j: int, p: spec_fn(u8) -> bool)
    requires
        0 <= i <= j <= s.len(),
        forall|k: int| i <= k < j ==> p(s[k]),
        j < s.len() ==> !p(s[j]),
    ensures
        end_of_run(s, i, p) == j,
    decreases j - i,
{
    if i < j {
        lemma_end_of_run_is(s, i + 1, j, p);
    }
}

/// A hex number is at least the value of any of its prefixes: appending
/// digits never shrinks the value.
pub proof fn lemma_hex_value_prefix_le(s: Seq<u8>, j: int)
    requires
        0 <= j <= s.len(),
    ensures
        hex_value(s.subrange(0, j)) <= hex_value(s),
    decreases s.len(),
{
    if j < s.len() {
        assert(s.drop_last().subrange(0, j) =~= s.subrange(0, j));
        lemma_hex_value_prefix_le(s.drop_last(), j);
    } else {
        assert(s.subrange(0, j) =~= s);
    }
}

/// The offset field at `e`: the fixed-width literal `00000000`.
pub open spec fn offset_literal_at(s: Seq<u8>, e: int) -> bool {
    &&& 0 <= e
    &&& e + 8 <= s.len()
    &&& s[e] == DIGIT_ZERO
    &&& s[e + 1] == DIGIT_ZERO
    &&& s[e + 2] == DIGIT_ZERO
    &&& s[e + 3] == DIGIT_ZERO
    &&& s[e + 4] == DIGIT_ZERO
    &&& s[e + 5] == DIGIT_ZERO
    &&& s[e + 6] == DIGIT_ZERO
    &&& s[e + 7] == DIGIT_ZERO
}

/// The device field at `f`: the literal `00:00` of an anonymous mapping.
pub open spec fn device_literal_at(s: Seq<u8>, f: int) -> bool {
    &&& 0 <= f
    &&& f + 5 <= s.len()
    &&& s[f] == DIGIT_ZERO
    &&& s[f + 1] == DIGIT_ZERO
    &&& s[f + 2] == COLON
    &&& s[f + 3] == DIGIT_ZERO
    &&& s[f + 4] == DIGIT_ZERO
}

/// The meaning of one line: `Some((start, end))` when the line is a
/// heap-like mapping record with bounds `start` and `end`, `None` when it
/// is not.
///
/// The grammar is matched greedily, strictly left to right: a nonempty hex
/// run, a dash, a nonempty hex run, then — each preceded by a nonempty
/// whitespace run — a nonempty permissions run, the literal `00000000`, the
/// literal `00:00` and a field starting with the digit `0`.  Whatever
/// follows that digit is ignored.  A bound too large for `usize` rejects
/// the line.
pub open spec fn spec_recognize(s: Seq<u8>) -> Option<(nat, nat)> {
    let a = end_of_run(s, 0, hex_pred());
    if !(0 < a && a < s.len() && s[a] == DASH) {
        None
    } else {
        let b = end_of_run(s, a + 1, hex_pred());
        if b == a + 1 {
            None
        } else {
            let c = end_of_run(s, b, space_pred());
            if c == b {
                None
            } else {
                let d = end_of_run(s, c, perm_pred());
                if d == c {
                    None
                } else {
                    let e = end_of_run(s, d, space_pred());
                    if e == d {
                        None
                    } else if !offset_literal_at(s, e) {
                        None
                    } else {
                        let f = end_of_run(s, e + 8, space_pred());
                        if f == e + 8 {
                            None
                        } else if !device_literal_at(s, f) {
                            None
                        } else {
                            let g = end_of_run(s, f + 5, space_pred());
                            if !(g > f + 5 && g < s.len() && s[g] == DIGIT_ZERO) {
                                None
                            } else {
                                let start = hex_value(s.subrange(0, a));
                                let end = hex_value(s.subrange(a + 1, b));
                                if start <= usize::MAX as nat && end <= usize::MAX as nat {
                                    Some((start, end))
                                } else {
                                    None
                                }
                            }
                        }
                    }
                }
            }
        }
    }
}

/// Whether every byte of `s` satisfies `p`.
pub open spec fn all_bytes(s: Seq<u8>, p: spec_fn(u8) -> bool) -> bool {
    forall|i: int| 0 <= i < s.len() ==> p(s[i])
}

/// The complement of the whitespace class, for field bytes.
pub open spec fn nonspace_pred() -> spec_fn(u8) -> bool {
    |b: u8| !is_space(b)
}

/// The eight bytes of the zero offset field.
pub open spec fn offset_literal() -> Seq<u8> {
    seq![
        DIGIT_ZERO,
        DIGIT_ZERO,
        DIGIT_ZERO,
        DIGIT_ZERO,
        DIGIT_ZERO,
        DIGIT_ZERO,
        DIGIT_ZERO,
        DIGIT_ZERO,
    ]
}

/// The five bytes of the anonymous device field.
pub open spec fn device_literal() -> Seq<u8> {
    seq![DIGIT_ZERO, DIGIT_ZERO, COLON, DIGIT_ZERO, DIGIT_ZERO]
}

/// A line assembled from its fields: bounds, permissions, offset, device,
/// and the final segment `z` holding the inode field and everything after
/// it.
pub open spec fn heap_line(
    h1: Seq<u8>,
    h2: Seq<u8>,
    w1: Seq<u8>,
    perms: Seq<u8>,
    w2: Seq<u8>,
    off: Seq<u8>,
    w3: Seq<u8>,
    dev: Seq<u8>,
    w4: Seq<u8>,
    z: Seq<u8>,
) -> Seq<u8> {
    h1 + seq![DASH] + h2 + w1 + perms + w2 + off + w3 + dev + w4 + z
}

/// The fields have the right classes and sizes: nonempty hex bounds,
/// nonempty whitespace separators, a nonempty permissions field, nonempty
/// whitespace-free offset and device fields, and a final segment that does
/// not begin with whitespace.
pub open spec fn heap_line_shape(
    h1: Seq<u8>,
    h2: Seq<u8>,
    w1: Seq<u8>,
    perms: Seq<u8>,
    w2: Seq<u8>,
    off: Seq<u8>,
    w3: Seq<u8>,
    dev: Seq<u8>,
    w4: Seq<u8>,
    z: Seq<u8>,
) -> bool {
    &&& h1.len() > 0 && all_bytes(h1, hex_pred())
    &&& h2.len() > 0 && all_bytes(h2, hex_pred())
    &&& w1.len() > 0 && all_bytes(w1, space_pred())
    &&& perms.len() > 0 && all_bytes(perms, perm_pred())
    &&& w2.len() > 0 && all_bytes(w2, space_pred())
    &&& off.len() > 0 && all_bytes(off, nonspace_pred())
    &&& w3.len() > 0 && all_bytes(w3, space_pred())
    &&& dev.len() > 0 && all_bytes(dev, nonspace_pred())
    &&& w4.len() > 0 && all_bytes(w4, space_pred())
    &&& z.len() > 0 && !is_space(z[0])
}

/// What recognition does on any field-decomposed line: it accepts exactly
/// when the offset field is the zero literal, the device field is the
/// anonymous literal, the inode field starts with `0` and both bounds fit
/// in `usize` — and then it returns the two hex bounds.  Neither the
/// permissions field nor anything after the inode's first byte takes part
/// in the decision.
pub proof fn lemma_recognize_heap_line(
    h1: Seq<u8>,
    h2: Seq<u8>,
    w1: Seq<u8>,
    perms: Seq<u8>,
    w2: Seq<u8>,
    off: Seq<u8>,
    w3: Seq<u8>,
    dev: Seq<u8>,
    w4: Seq<u8>,
    z: Seq<u8>,
)
    requires
        heap_line_shape(h1, h2, w1, perms, w2, off, w3, dev, w4, z),
    ensures
        spec_recognize(heap_line(h1, h2, w1, perms, w2, off, w3, dev, w4, z)) == (if off
            == offset_literal() && dev == device_literal() && z[0] == DIGIT_ZERO && hex_value(h1)
            <= usize::MAX as nat && hex_value(h2) <= usize::MAX as nat {
            Some((hex_value(h1), hex_value(h2)))
        } else {
            None
        }),
{
    let s = heap_line(h1, h2, w1, perms, w2, off, w3, dev, w4, z);
    let a = h1.len() as int;
    let b = a + 1 + h2.len();
    let c = b + w1.len();
    let d = c + perms.len();
    let e = d + w2.len();
    let so = e + off.len();
    let sw3 = so + w3.len();
    let sd = sw3 + dev.len();
    let sw4 = sd + w4.len();
    assert(s.len() == sw4 + z.len());
    assert forall|i: int| 0 <= i < h1.len() implies s[i] == h1[i] by {}
    assert(s[a] == DASH);
    assert forall|i: int| 0 <= i < h2.len() implies s[a + 1 + i] == h2[i] by {}
    assert forall|i: int| 0 <= i < w1.len() implies s[b + i] == w1[i] by {}
    assert forall|i: int| 0 <= i < perms.len() implies s[c + i] == perms[i] by {}
    assert forall|i: int| 0 <= i < w2.len() implies s[d + i] == w2[i] by {}
    assert forall|i: int| 0 <= i < off.len() implies s[e + i] == off[i] by {}
    assert forall|i: int| 0 <= i < w3.len() implies s[so + i] == w3[i] by {}
    assert forall|i: int| 0 <= i < dev.len() implies s[sw3 + i] == dev[i] by {}
    assert forall|i: int| 0 <= i < w4.len() implies s[sd + i] == w4[i] by {}
    assert forall|i: int| 0 <= i < z.len() implies s[sw4 + i] == z[i] by {}

    // The byte classes are pairwise disjoint, and no literal byte is
    // whitespace.
    assert(!is_hex_digit(DASH) && !is_space(DASH));
    assert forall|x: u8| is_space(x) implies !is_hex_digit(x) && !is_perm_byte(x) by {}
    assert forall|x: u8| is_perm_byte(x) implies !is_space(x) by {}
    assert(!is_space(DIGIT_ZERO) && !is_space(COLON));

    // The five leading greedy runs end exactly at the field borders.
    lemma_end_of_run_is(s, 0, a, hex_pred());
    lemma_end_of_run_is(s, a + 1, b, hex_pred());
    lemma_end_of_run_is(s, b, c, space_pred());
    lemma_end_of_run_is(s, c, d, perm_pred());
    lemma_end_of_run_is(s, d, e, space_pred());
    assert(s[e] == off[0] && !is_space(off[0]));

    if off == offset_literal() {
        assert(offset_literal_at(s, e));
        lemma_end_of_run_is(s, e + 8, sw3, space_pred());
        assert(s[sw3] == dev[0] && !is_space(dev[0]));
        if dev == device_literal() {
            assert(device_literal_at(s, sw3));
            lemma_end_of_run_is(s, sw3 + 5, sw4, space_pred());
            assert(s[sw4] == z[0]);
            assert(s.subrange(0, a) =~= h1);
            assert(s.subrange(a + 1, b) =~= h2);
            if z[0] == DIGIT_ZERO {
                if hex_value(h1) <= usize::MAX as nat && hex_value(h2) <= usize::MAX as nat {
                    assert(spec_recognize(s) == Some((hex_value(h1), hex_value(h2))));
                } else {
                    assert(spec_recognize(s) is None);
                }
            } else {
                assert(spec_recognize(s) is None);
            }
        } else {
            // The device field differs from `00:00`: either the literal
            // check fails outright, or the field merely begins with it and
            // its next byte cuts the following whitespace run short.
            if device_literal_at(s, sw3) {
                if dev.len() < 5 {
                    assert(s[sw3 + dev.len()] == w4[0]);
                    assert(is_space(w4[0]));
                    assert(false);
                } else if dev.len() == 5 {
                    assert(dev =~= device_literal());
                    assert(false);
                } else {
                    assert(s[sw3 + 5] == dev[5] && !is_space(dev[5]));
                    lemma_end_of_run_is(s, sw3 + 5, sw3 + 5, space_pred());
                    assert(spec_recognize(s) is None);
                }
            } else {
                assert(spec_recognize(s) is None);
            }
        }
    } else {
        // The offset field differs from `00000000`: as above, the literal
        // check or the following whitespace run fails.
        if offset_literal_at(s, e) {
            if off.len() < 8 {
                assert(s[e + off.len()] == w3[0]);
                assert(is_space(w3[0]));
                assert(false);
            } else if off.len() == 8 {
                assert(off =~= offset_literal());
                assert(false);
            } else {
                assert(s[e + 8] == off[8] && !is_space(off[8]));
                lemma_end_of_run_is(s, e + 8, e + 8, space_pred());
                assert(spec_recognize(s) is None);
            }
        } else {
            assert(spec_recognize(s) is None);
        }
    }
}

/// Every line whose fields have the heap-like shape — hex bounds, a
/// permissions field over `{r, w, p, x, -}`, the zero offset literal, the
/// anonymous device literal and an inode field starting with `0` — is
/// accepted, with the two bounds read base-16, whatever follows the
/// inode's leading digit.
pub proof fn lemma_heap_line_accepted(
    h1: Seq<u8>,
    h2: Seq<u8>,
    w1: Seq<u8>,
    perms: Seq<u8>,
    w2: Seq<u8>,
    w3: Seq<u8>,
    w4: Seq<u8>,
    tail: Seq<u8>,
)
    requires
        h1.len() > 0 && all_bytes(h1, hex_pred()),
        h2.len() > 0 && all_bytes(h2, hex_pred()),
        w1.len() > 0 && all_bytes(w1, space_pred()),
        perms.len() > 0 && all_bytes(perms, perm_pred()),
        w2.len() > 0 && all_bytes(w2, space_pred()),
        w3.len() > 0 && all_bytes(w3, space_pred()),
        w4.len() > 0 && all_bytes(w4, space_pred()),
        hex_value(h1) <= usize::MAX as nat,
        hex_value(h2) <= usize::MAX as nat,
    ensures
        spec_recognize(
            heap_line(
                h1,
                h2,
                w1,
                perms,
                w2,
                offset_literal(),
                w3,
                device_literal(),
                w4,
                seq![DIGIT_ZERO] + tail,
            ),
        ) == Some((hex_value(h1), hex_value(h2))),
{
    let z = seq![DIGIT_ZERO] + tail;
    assert(z[0] == DIGIT_ZERO && !is_space(DIGIT_ZERO));
    lemma_recognize_heap_line(
        h1,
        h2,
        w1,
        perms,
        w2,
        offset_literal(),
        w3,
        device_literal(),
        w4,
        z,
    );
}

/// A line of otherwise valid shape whose offset field is not `00000000`,
/// whose device field is not `00:00`, or whose inode field does not start
/// with `0`, is rejected.
pub proof fn lemma_heap_line_rejected(
    h1: Seq<u8>,
    h2: Seq<u8>,
    w1: Seq<u8>,
    perms: Seq<u8>,
    w2: Seq<u8>,
    off: Seq<u8>,
    w3: Seq<u8>,
    dev: Seq<u8>,
    w4: Seq<u8>,
    z: Seq<u8>,
)
    requires
        heap_line_shape(h1, h2, w1, perms, w2, off, w3, dev, w4, z),
        off != offset_literal() || dev != device_literal() || z[0] != DIGIT_ZERO,
    ensures
        spec_recognize(heap_line(h1, h2, w1, perms, w2, off, w3, dev, w4, z)) is None,
{
    lemma_recognize_heap_line(h1, h2, w1, perms, w2, off, w3, dev, w4, z);
}

/// The specific value of the permissions field plays no part in
/// recognition: two lines differing only there are both accepted — with
/// the same bounds — or both rejected.
pub proof fn lemma_recognize_perms_independent(
    h1: Seq<u8>,
    h2: Seq<u8>,
    w1: Seq<u8>,
    p1: Seq<u8>,
    p2: Seq<u8>,
    w2: Seq<u8>,
    off: Seq<u8>,
    w3: Seq<u8>,
    dev: Seq<u8>,
    w4: Seq<u8>,
    z: Seq<u8>,
)
    requires
        heap_line_shape(h1, h2, w1, p1, w2, off, w3, dev, w4, z),
        p2.len() > 0 && all_bytes(p2, perm_pred()),
    ensures
        spec_recognize(heap_line(h1, h2, w1, p1, w2, off, w3, dev, w4, z)) == spec_recognize(
            heap_line(h1, h2, w1, p2, w2, off, w3, dev, w4, z),
        ),
{
    lemma_recognize_heap_line(h1, h2, w1, p1, w2, off, w3, dev, w4, z);
    lemma_recognize_heap_line(h1, h2, w1, p2, w2, off, w3, dev, w4, z);
}

/// Whether `b` is an ASCII hexadecimal digit, decided at run time.
fn byte_is_hex(b: u8) -> (r: bool)
    ensures
        r == is_hex_digit(b),
{
    (48 <= b && b <= 57) || (97 <= b && b <= 102) || (65 <= b && b <= 70)
}

/// Whether `b` is a whitespace byte, decided at run time.
fn byte_is_space(b: u8) -> (r: bool)
    ensures
        r == is_space(b),
{
    b == 32 || b == 9 || b == 10 || b == 13
}

/// Whether `b` is a permissions byte, decided at run time.
fn byte_is_perm(b: u8) -> (r: bool)
    ensures
        r == is_perm_byte(b),
{
    b == 114 || b == 119 || b == 112 || b == 120 || b == 45
}

/// End of the greedy run of hex digits starting at `from`.
fn scan_hex(s: &[u8], from: usize) -> (j: usize)
    requires
        from <= s@.len(),
    ensures
        j == end_of_run(s@, from as int, hex_pred()),
        from <= j <= s@.len(),
{
    let mut j: usize = from;
    while j < s.len() && byte_is_hex(s[j])
        invariant
            from <= j <= s@.len(),
            forall|k: int| from <= k < j ==> is_hex_digit(s@[k]),
        decreases s@.len() - j,
    {
        j = j + 1;
    }
    proof {
        lemma_end_of_run_is(s@, from as int, j as int, hex_pred());
    }
    j
}

/// End of the greedy run of whitespace bytes starting at `from`.
fn scan_space(s: &[u8], from: usize) -> (j: usize)
    requires
        from <= s@.len(),
    ensures
        j == end_of_run(s@, from as int, space_pred()),
        from <= j <= s@.len(),
{
    let mut j: usize = from;
    while j < s.len() && byte_is_space(s[j])
        invariant
            from <= j <= s@.len(),
            forall|k: int| from <= k < j ==> is_space(s@[k]),
        decreases s@.len() - j,
    {
        j = j + 1;
    }
    proof {
        lemma_end_of_run_is(s@, from as int, j as int, space_pred());
    }
    j
}

/// End of the greedy run of permissions bytes starting at `from`.
fn scan_perm(s: &[u8], from: usize) -> (j: usize)
    requires
        from <= s@.len(),
    ensures
        j == end_of_run(s@, from as int, perm_pred()),
        from <= j <= s@.len(),
{
    let mut j: usize = from;
    while j < s.len() && byte_is_perm(s[j])
        invariant
            from <= j <= s@.len(),
            forall|k: int| from <= k < j ==> is_perm_byte(s@[k]),
        decreases s@.len() - j,
    {
        j = j + 1;
    }
    proof {
        lemma_end_of_run_is(s@, from as int, j as int, perm_pred());
    }
    j
}

/// Numeric value of the hex digit `b`, computed at run time.
fn hex_digit_of(b: u8) -> (v: u8)
    requires
        is_hex_digit(b),
    ensures
        v == hex_digit_value(b),
{
    if 48 <= b && b <= 57 {
        b - 48
    } else if 97 <= b && b <= 102 {
        b - 87
    } else {
        b - 55
    }
}

/// Value of the hex digits `s[from..to]` as a `usize`, or `None` when the
/// number does not fit.
fn parse_hex_value(s: &[u8], from: usize, to: usize) -> (r: Option<usize>)
    requires
        from <= to <= s@.len(),
        forall|k: int| from <= k < to ==> is_hex_digit(s@[k]),
    ensures
        match r {
            Some(v) => v == hex_value(s@.subrange(from as int, to as int)),
            None => hex_value(s@.subrange(from as int, to as int)) > usize::MAX as nat,
        },
{
    let mut acc: usize = 0;
    let mut i: usize = from;
    while i < to
        invariant
            from <= i <= to <= s@.len(),
            forall|k: int| from <= k < to ==> is_hex_digit(s@[k]),
            acc == hex_value(s@.subrange(from as int, i as int)),
        decreases to - i,
    {
        let d = hex_digit_of(s[i]);
        proof {
            assert(s@.subrange(from as int, i + 1).drop_last() =~= s@.subrange(
                from as int,
                i as int,
            ));
            assert(s@.subrange(from as int, i + 1).last() == s@[i as int]);
        }
        let shifted = match acc.checked_mul(16) {
            Some(m) => m,
            None => {
                proof {
                    let full = s@.subrange(from as int, to as int);
                    assert(full.subrange(0, i + 1 - from) =~= s@.subrange(from as int, i + 1));
                    lemma_hex_value_prefix_le(full, i + 1 - from);
                }
                return None;
            },
        };
        let next = match shifted.checked_add(d as usize) {
            Some(v) => v,
            None => {
                proof {
                    let full = s@.subrange(from as int, to as int);
                    assert(full.subrange(0, i + 1 - from) =~= s@.subrange(from as int, i + 1));
                    lemma_hex_value_prefix_le(full, i + 1 - from);
                }
                return None;
            },
        };
        acc = next;
        i = i + 1;
    }
    proof {
        assert(s@.subrange(from as int, to as int) =~= s@.subrange(from as int, i as int));
    }
    Some(acc)
}

/// Classify one line of a memory-map listing.
///
/// Returns the address range of a heap-like mapping record, or `None` for
/// any line that deviates from the grammar — including a line whose bounds
/// do not fit in `usize`.  The result is a function of the line's bytes
/// alone, as the contract states.
pub fn recognize_heap(line: &[u8]) -> (r: Option<AddressRange>)
    ensures
        match spec_recognize(line@) {
            Some(v) => r == Some(AddressRange { start: v.0 as usize, end: v.1 as usize }),
            None => r is None,
        },
{
    let n = line.len();
    let a = scan_hex(line, 0);
    if !(0 < a && a < n && line[a] == DASH) {
        return None;
    }
    let b = scan_hex(line, a + 1);
    if b == a + 1 {
        return None;
    }
    let c = scan_space(line, b);
    if c == b {
        return None;
    }
    let d = scan_perm(line, c);
    if d == c {
        return None;
    }
    let e = scan_space(line, d);
    if e == d {
        return None;
    }
    if n - e < 8 {
        return None;
    }
    if !(line[e] == DIGIT_ZERO && line[e + 1] == DIGIT_ZERO && line[e + 2] == DIGIT_ZERO
        && line[e + 3] == DIGIT_ZERO && line[e + 4] == DIGIT_ZERO && line[e + 5] == DIGIT_ZERO
        && line[e + 6] == DIGIT_ZERO && line[e + 7] == DIGIT_ZERO) {
        return None;
    }
    let f = scan_space(line, e + 8);
    if f == e + 8 {
        return None;
    }
    if n - f < 5 {
        return None;
    }
    if !(line[f] == DIGIT_ZERO && line[f + 1] == DIGIT_ZERO && line[f + 2] == COLON
        && line[f + 3] == DIGIT_ZERO && line[f + 4] == DIGIT_ZERO) {
        return None;
    }
    let g = scan_space(line, f + 5);
    if !(g > f + 5 && g < n && line[g] == DIGIT_ZERO) {
        return None;
    }
    proof {
        lemma_end_of_run_bounds(line@, 0, hex_pred());
        lemma_end_of_run_bounds(line@, a + 1, hex_pred());
    }
    let start = match parse_hex_value(line, 0, a) {
        Some(v) => v,
        None => {
            return None;
        },
    };
    let end = match parse_hex_value(line, a + 1, b) {
        Some(v) => v,
        None => {
            return None;
        },
    };
    Some(AddressRange { start, end })
}

} // verus!
