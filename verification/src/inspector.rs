use vstd::prelude::*;

verus! {

/// How many bytes from the start of a file are inspected.
pub const SAMPLE_SIZE: usize = 8192;

/// A control byte that counts against text: below `0x20` and none of tab,
/// line feed, carriage return or escape.
pub open spec fn is_suspect_control(b: u8) -> bool {
    b < 0x20 && b != 0x09 && b != 0x0a && b != 0x0d && b != 0x1b
}

/// The number of suspect control bytes in `s`.
pub open spec fn suspect_count(s: Seq<u8>) -> nat
    decreases s.len(),
{
    if s.len() == 0 {
        0
    } else {
        suspect_count(s.drop_last()) + if is_suspect_control(s.last()) {
            1nat
        } else {
            0nat
        }
    }
}

/// A sample reads as text when it is not empty, holds no zero byte, and at most
/// a tenth of its bytes are suspect control bytes.
pub open spec fn looks_like_text(s: Seq<u8>) -> bool {
    &&& s.len() > 0
    &&& forall|i: int| 0 <= i < s.len() ==> s[i] != 0
    &&& 10 * suspect_count(s) <= s.len()
}

/// Whether `b` is one of the control bytes text may hold: tab, line feed,
/// carriage return, escape.
pub open spec fn is_text_control(b: u8) -> bool {
    b == 0x09 || b == 0x0a || b == 0x0d || b == 0x1b
}

proof fn lemma_no_low_controls_count_zero(s: Seq<u8>)
    requires
        forall|i: int| 0 <= i < s.len() ==> (s[i] < 0x20 ==> is_text_control(#[trigger] s[i])),
    ensures
        suspect_count(s) == 0,
    decreases s.len(),
{
    if s.len() > 0 {
        let t = s.drop_last();
        assert forall|i: int| 0 <= i < t.len() implies (t[i] < 0x20 ==> is_text_control(
            #[trigger] t[i],
        )) by {
            assert(t[i] == s[i]);
        }
        lemma_no_low_controls_count_zero(t);
        assert(s.last() == s[s.len() - 1]);
    }
}

/// Only bytes below `0x20` count against text: a non-empty sample with no zero
/// byte whose bytes below `0x20` are all tab, line feed, carriage return or
/// escape is text, whatever bytes from `0x20` up (UTF-8 among them) it holds.
pub proof fn law_text_without_low_controls(s: Seq<u8>)
    requires
        s.len() > 0,
        forall|i: int| 0 <= i < s.len() ==> #[trigger] s[i] != 0,
        forall|i: int| 0 <= i < s.len() ==> (s[i] < 0x20 ==> is_text_control(#[trigger] s[i])),
    ensures
        looks_like_text(s),
{
    lemma_no_low_controls_count_zero(s);
}

/// Appending a byte from `0x20` up to a text sample leaves it text.
pub proof fn law_high_byte_keeps_text(s: Seq<u8>, b: u8)
    requires
        looks_like_text(s),
        b >= 0x20,
    ensures
        looks_like_text(s.push(b)),
{
    let t = s.push(b);
    assert(t.drop_last() =~= s);
    assert(t.last() == b);
    assert forall|i: int| 0 <= i < t.len() implies t[i] != 0 by {
        if i < s.len() {
            assert(t[i] == s[i]);
        }
    }
}

/// Whether the first bytes of a file, `sample`, say that the file is text.
pub fn is_text_sample(sample: &[u8]) -> (r: bool)
    ensures
        r == looks_like_text(sample@),
        r ==> sample@.len() > 0 && forall|i: int| 0 <= i < sample@.len() ==> sample@[i] != 0,
        (sample@.len() > 0 && forall|i: int|
            0 <= i < sample@.len() ==> sample@[i] != 0 && (sample@[i] < 0x20 ==> is_text_control(
                sample@[i],
            ))) ==> r,
{
    proof {
        if sample@.len() > 0 && forall|i: int|
            0 <= i < sample@.len() ==> sample@[i] != 0 && (sample@[i] < 0x20 ==> is_text_control(
                sample@[i],
            )) {
            law_text_without_low_controls(sample@);
        }
    }
    let n = sample.len();
    if n == 0 {
        return false;
    }
    let mut count: usize = 0;
    let mut i: usize = 0;
    while i < n
        invariant
            n == sample@.len(),
            i <= n,
            count == suspect_count(sample@.take(i as int)),
            count <= i,
            forall|k: int| 0 <= k < i ==> sample@[k] != 0,
        decreases n - i,
    {
        let b = sample[i];
        if b == 0 {
            return false;
        }
        assert(sample@.take(i + 1).drop_last() =~= sample@.take(i as int));
        if b < 0x20 && b != 0x09 && b != 0x0a && b != 0x0d && b != 0x1b {
            count = count + 1;
        }
        i = i + 1;
    }
    assert(sample@.take(n as int) =~= sample@);
    count <= n / 10
}

} // verus!
