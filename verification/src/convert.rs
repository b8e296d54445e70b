use vstd::prelude::*;

use crate::rules::LineEnding;

verus! {

/// Files larger than this many bytes are still converted, with a warning.
pub const LARGE_FILE_THRESHOLD: u64 = 104857600;

/// How handling one file ended.
pub struct ConvertResult {
    /// The file's line endings were (or, in a dry run, would be) rewritten.
    pub changed: bool,
    /// The file was left alone: it is empty, or it could not be read.
    pub skipped: bool,
    /// What went wrong, if anything did.
    pub error: Option<String>,
}

/// The outcome of converting a file's content, and the bytes to write back
/// in its place, if any.
pub struct Conversion {
    pub result: ConvertResult,
    pub output: Option<Vec<u8>>,
}

/// Carriage return, `\r`.
pub const CR_BYTE: u8 = 13;

/// Line feed, `\n`.
pub const LF_BYTE: u8 = 10;

/// The bytes that end a line in the given style.
pub open spec fn eol_bytes(target: LineEnding) -> Seq<u8> {
    match target {
        LineEnding::LF => seq![LF_BYTE],
        LineEnding::CRLF => seq![CR_BYTE, LF_BYTE],
        LineEnding::CR => seq![CR_BYTE],
    }
}

/// Whether `s` starts with a `\r\n` pair.
pub open spec fn starts_with_crlf(s: Seq<u8>) -> bool {
    s.len() >= 2 && s[0] == CR_BYTE && s[1] == LF_BYTE
}

/// `s` with every line ending rewritten in the `target` style. A line ending is a
/// `\r\n` pair, a lone `\r` or a lone `\n`; every other byte is kept.
pub open spec fn normalized(s: Seq<u8>, target: LineEnding) -> Seq<u8>
    decreases s.len(),
{
    if s.len() == 0 {
        Seq::empty()
    } else if starts_with_crlf(s) {
        eol_bytes(target) + normalized(s.skip(2), target)
    } else if s[0] == CR_BYTE || s[0] == LF_BYTE {
        eol_bytes(target) + normalized(s.skip(1), target)
    } else {
        seq![s[0]] + normalized(s.skip(1), target)
    }
}

/// `data` scanned left to right, each non-overlapping occurrence of a non-empty
/// `from` replaced by `to`.
pub open spec fn replaced(data: Seq<u8>, from: Seq<u8>, to: Seq<u8>) -> Seq<u8>
    decreases data.len(),
{
    if data.len() == 0 {
        Seq::empty()
    } else if from.len() > 0 && from.len() <= data.len() && data.take(from.len() as int) == from {
        to + replaced(data.skip(from.len() as int), from, to)
    } else {
        seq![data[0]] + replaced(data.skip(1), from, to)
    }
}

proof fn lemma_replaced_empty_pattern(data: Seq<u8>, from: Seq<u8>, to: Seq<u8>)
    requires
        from.len() == 0,
    ensures
        replaced(data, from, to) == data,
    decreases data.len(),
{
    if data.len() > 0 {
        lemma_replaced_empty_pattern(data.skip(1), from, to);
        assert(data == seq![data[0]] + data.skip(1));
    }
}

/// Whether `pat` occurs in `data` at position `pos`.
fn occurs_at(data: &[u8], pos: usize, pat: &[u8]) -> (r: bool)
    requires
        pos <= data.len(),
    ensures
        r == (pat@.len() <= data@.len() - pos && data@.skip(pos as int).take(pat@.len() as int)
            == pat@),
{
    if pat.len() > data.len() - pos {
        return false;
    }
    let mut i: usize = 0;
    while i < pat.len()
        invariant
            pos + pat.len() <= data.len(),
            i <= pat@.len(),
            forall|k: int| 0 <= k < i ==> data@[pos + k] == pat@[k],
        decreases pat.len() - i,
    {
        if data[pos + i] != pat[i] {
            assert(data@.skip(pos as int).take(pat@.len() as int)[i as int] != pat@[i as int]);
            return false;
        }
        i = i + 1;
    }
    assert(data@.skip(pos as int).take(pat@.len() as int) =~= pat@);
    true
}

/// Appends all of `src` to `dst`.
fn append_bytes(dst: &mut Vec<u8>, src: &[u8])
    ensures
        final(dst)@ == old(dst)@ + src@,
{
    let mut i: usize = 0;
    while i < src.len()
        invariant
            i <= src@.len(),
            dst@ == old(dst)@ + src@.take(i as int),
        decreases src.len() - i,
    {
        dst.push(src[i]);
        i = i + 1;
        assert(src@.take(i as int) == src@.take((i - 1) as int).push(src@[i - 1]));
    }
    assert(src@.take(src@.len() as int) == src@);
}

/// Replaces every non-overlapping occurrence of `from` in `data` by `to`,
/// scanning from the left.
fn replace_all(data: &[u8], from: &[u8], to: &[u8]) -> (r: Vec<u8>)
    ensures
        r@ == replaced(data@, from@, to@),
{
    if data.len() == 0 || from.len() == 0 {
        proof {
            if from@.len() == 0 {
                lemma_replaced_empty_pattern(data@, from@, to@);
            }
        }
        return vstd::slice::slice_to_vec(data);
    }
    let mut result: Vec<u8> = Vec::with_capacity(data.len());
    let mut pos: usize = 0;
    assert(data@.skip(0) == data@);
    while pos < data.len()
        invariant
            pos <= data@.len(),
            from@.len() > 0,
            replaced(data@, from@, to@) == result@ + replaced(data@.skip(pos as int), from@, to@),
        decreases data.len() - pos,
    {
        let ghost rest = data@.skip(pos as int);
        if occurs_at(data, pos, from) {
            append_bytes(&mut result, to);
            pos = pos + from.len();
            assert(rest.skip(from@.len() as int) == data@.skip(pos as int));
        } else {
            result.push(data[pos]);
            pos = pos + 1;
            assert(rest.skip(1) == data@.skip(pos as int));
        }
    }
    assert(data@.skip(pos as int).len() == 0);
    result
}


proof fn lemma_replaced_single(b: u8, x: Seq<u8>, f: u8, to: Seq<u8>)
    ensures
        replaced(seq![b] + x, seq![f], to) == (if b == f { to } else { seq![b] }) + replaced(
            x,
            seq![f],
            to,
        ),
{
    let d = seq![b] + x;
    assert(d.skip(1) =~= x);
    if b == f {
        assert(d.take(1) =~= seq![f]);
    } else {
        assert(d.take(1)[0] != seq![f][0]);
    }
}

/// Removing `\r\n` pairs first and then lone `\r` yields the `\n` form.
proof fn lemma_two_passes_give_lf(s: Seq<u8>)
    ensures
        replaced(replaced(s, seq![CR_BYTE, LF_BYTE], seq![LF_BYTE]), seq![CR_BYTE], seq![LF_BYTE])
            == normalized(s, LineEnding::LF),
    decreases s.len(),
{
    let crlf = seq![CR_BYTE, LF_BYTE];
    let lf = seq![LF_BYTE];
    if s.len() > 0 {
        if starts_with_crlf(s) {
            assert(s.take(2) =~= crlf);
            lemma_two_passes_give_lf(s.skip(2));
            lemma_replaced_single(LF_BYTE, replaced(s.skip(2), crlf, lf), CR_BYTE, lf);
        } else {
            if s.len() >= 2 {
                assert(s.take(2) != crlf) by {
                    if s.take(2) == crlf {
                        assert(s.take(2)[0] == s[0] && s.take(2)[1] == s[1]);
                    }
                }
            }
            lemma_two_passes_give_lf(s.skip(1));
            lemma_replaced_single(s[0], replaced(s.skip(1), crlf, lf), CR_BYTE, lf);
        }
    }
}

/// Rewriting every `\n` of the `\n` form gives the form of any other style.
proof fn lemma_lf_form_expands(s: Seq<u8>, target: LineEnding)
    ensures
        replaced(normalized(s, LineEnding::LF), seq![LF_BYTE], eol_bytes(target)) == normalized(
            s,
            target,
        ),
    decreases s.len(),
{
    if s.len() > 0 {
        let e = eol_bytes(target);
        if starts_with_crlf(s) {
            lemma_lf_form_expands(s.skip(2), target);
            lemma_replaced_single(LF_BYTE, normalized(s.skip(2), LineEnding::LF), LF_BYTE, e);
        } else {
            lemma_lf_form_expands(s.skip(1), target);
            if s[0] == CR_BYTE || s[0] == LF_BYTE {
                lemma_replaced_single(LF_BYTE, normalized(s.skip(1), LineEnding::LF), LF_BYTE, e);
            } else {
                lemma_replaced_single(s[0], normalized(s.skip(1), LineEnding::LF), LF_BYTE, e);
            }
        }
    }
}

/// Rewrites every line ending of `content` (`\r\n`, lone `\r`, lone `\n`) in the
/// `target` style, leaving every other byte as it is.
pub fn normalize_line_endings(content: &[u8], target: LineEnding) -> (r: Vec<u8>)
    ensures
        r@ == normalized(content@, target),
{
    let crlf: Vec<u8> = vec![CR_BYTE, LF_BYTE];
    let cr: Vec<u8> = vec![CR_BYTE];
    let lf: Vec<u8> = vec![LF_BYTE];
    assert(crlf@ =~= seq![CR_BYTE, LF_BYTE]);
    assert(cr@ =~= seq![CR_BYTE]);
    assert(lf@ =~= seq![LF_BYTE]);
    let step1 = replace_all(content, crlf.as_slice(), lf.as_slice());
    let step2 = replace_all(step1.as_slice(), cr.as_slice(), lf.as_slice());
    proof {
        lemma_two_passes_give_lf(content@);
    }
    match target {
        LineEnding::LF => step2,
        LineEnding::CRLF => {
            proof {
                lemma_lf_form_expands(content@, target);
            }
            replace_all(step2.as_slice(), lf.as_slice(), crlf.as_slice())
        },
        LineEnding::CR => {
            proof {
                lemma_lf_form_expands(content@, target);
            }
            replace_all(step2.as_slice(), lf.as_slice(), cr.as_slice())
        },
    }
}


/// `s` holds no line ending other than the `target` style: no `\r` for `LF`,
/// no `\n` for `CR`, and for `CRLF` every `\r` is followed by `\n` and every
/// `\n` preceded by `\r`.
pub open spec fn in_style(s: Seq<u8>, target: LineEnding) -> bool {
    match target {
        LineEnding::LF => forall|i: int| 0 <= i < s.len() ==> #[trigger] s[i] != CR_BYTE,
        LineEnding::CR => forall|i: int| 0 <= i < s.len() ==> #[trigger] s[i] != LF_BYTE,
        LineEnding::CRLF => forall|i: int|
            0 <= i < s.len() ==> {
                &&& #[trigger] s[i] == CR_BYTE ==> i + 1 < s.len() && s[i + 1] == LF_BYTE
                &&& s[i] == LF_BYTE ==> i > 0 && s[i - 1] == CR_BYTE
            },
    }
}

/// Whether a byte is `\r` or `\n`.
pub open spec fn is_eol_byte(b: u8) -> bool {
    b == CR_BYTE || b == LF_BYTE
}

/// `s` with every `\r` and `\n` taken out: the text between line endings.
pub open spec fn without_line_breaks(s: Seq<u8>) -> Seq<u8>
    decreases s.len(),
{
    if s.len() == 0 {
        Seq::empty()
    } else if is_eol_byte(s[0]) {
        without_line_breaks(s.skip(1))
    } else {
        seq![s[0]] + without_line_breaks(s.skip(1))
    }
}

/// The number of line endings in `s`, a `\r\n` pair counting once.
pub open spec fn line_break_count(s: Seq<u8>) -> nat
    decreases s.len(),
{
    if s.len() == 0 {
        0
    } else if starts_with_crlf(s) {
        1 + line_break_count(s.skip(2))
    } else if is_eol_byte(s[0]) {
        1 + line_break_count(s.skip(1))
    } else {
        line_break_count(s.skip(1))
    }
}

proof fn lemma_in_style_prepend(p: Seq<u8>, x: Seq<u8>, t: LineEnding)
    requires
        in_style(x, t),
        p == eol_bytes(t) || (p.len() == 1 && !is_eol_byte(p[0])),
    ensures
        in_style(p + x, t),
{
    let s = p + x;
    match t {
        LineEnding::LF => {
            assert forall|i: int| 0 <= i < s.len() implies #[trigger] s[i] != CR_BYTE by {
                if i >= p.len() {
                    assert(s[i] == x[i - p.len()]);
                }
            }
        },
        LineEnding::CR => {
            assert forall|i: int| 0 <= i < s.len() implies #[trigger] s[i] != LF_BYTE by {
                if i >= p.len() {
                    assert(s[i] == x[i - p.len()]);
                }
            }
        },
        LineEnding::CRLF => {
            assert forall|i: int| 0 <= i < s.len() implies {
                &&& #[trigger] s[i] == CR_BYTE ==> i + 1 < s.len() && s[i + 1] == LF_BYTE
                &&& s[i] == LF_BYTE ==> i > 0 && s[i - 1] == CR_BYTE
            } by {
                if i >= p.len() {
                    let j = i - p.len();
                    assert(s[i] == x[j]);
                    if x[j] == CR_BYTE {
                        assert(s[i + 1] == x[j + 1]);
                    }
                    if x[j] == LF_BYTE {
                        assert(j > 0);
                        assert(s[i - 1] == x[j - 1]);
                    }
                }
            }
        },
    }
}

/// Every line ending of the result is in the `target` style.
pub proof fn law_normalized_is_in_style(s: Seq<u8>, target: LineEnding)
    ensures
        in_style(normalized(s, target), target),
    decreases s.len(),
{
    if s.len() > 0 {
        if starts_with_crlf(s) {
            law_normalized_is_in_style(s.skip(2), target);
            lemma_in_style_prepend(eol_bytes(target), normalized(s.skip(2), target), target);
        } else {
            law_normalized_is_in_style(s.skip(1), target);
            if is_eol_byte(s[0]) {
                lemma_in_style_prepend(eol_bytes(target), normalized(s.skip(1), target), target);
            } else {
                lemma_in_style_prepend(seq![s[0]], normalized(s.skip(1), target), target);
            }
        }
    }
}

/// Content whose line endings are all in the `target` style is left as it is;
/// so is content with no line ending at all.
pub proof fn law_in_style_is_unchanged(s: Seq<u8>, target: LineEnding)
    requires
        in_style(s, target),
    ensures
        normalized(s, target) == s,
    decreases s.len(),
{
    if s.len() > 0 {
        if starts_with_crlf(s) {
            let r = s.skip(2);
            match target {
                LineEnding::LF => {
                    assert(s[0] != CR_BYTE);
                },
                LineEnding::CR => {
                    assert(s[1] != LF_BYTE);
                },
                LineEnding::CRLF => {
                    assert forall|i: int| 0 <= i < r.len() implies {
                        &&& #[trigger] r[i] == CR_BYTE ==> i + 1 < r.len() && r[i + 1] == LF_BYTE
                        &&& r[i] == LF_BYTE ==> i > 0 && r[i - 1] == CR_BYTE
                    } by {
                        assert(r[i] == s[i + 2]);
                        if r[i] == CR_BYTE {
                            assert(s[i + 3] == r[i + 1]);
                        }
                        if r[i] == LF_BYTE {
                            assert(s[i + 2] == LF_BYTE);
                            if i == 0 {
                                assert(s[1] == LF_BYTE);
                            } else {
                                assert(s[i + 1] == r[i - 1]);
                            }
                        }
                    }
                },
            }
            law_in_style_is_unchanged(r, target);
            assert(s =~= eol_bytes(target) + r);
        } else {
            let r = s.skip(1);
            match target {
                LineEnding::LF => {
                    assert(s[0] != CR_BYTE);
                    assert forall|i: int| 0 <= i < r.len() implies #[trigger] r[i] != CR_BYTE by {
                        assert(r[i] == s[i + 1]);
                    }
                },
                LineEnding::CR => {
                    assert(s[0] != LF_BYTE);
                    assert forall|i: int| 0 <= i < r.len() implies #[trigger] r[i] != LF_BYTE by {
                        assert(r[i] == s[i + 1]);
                    }
                },
                LineEnding::CRLF => {
                    assert(s[0] != CR_BYTE);
                    assert(s[0] != LF_BYTE);
                    assert forall|i: int| 0 <= i < r.len() implies {
                        &&& #[trigger] r[i] == CR_BYTE ==> i + 1 < r.len() && r[i + 1] == LF_BYTE
                        &&& r[i] == LF_BYTE ==> i > 0 && r[i - 1] == CR_BYTE
                    } by {
                        assert(r[i] == s[i + 1]);
                        if r[i] == CR_BYTE {
                            assert(s[i + 2] == r[i + 1]);
                        }
                        if r[i] == LF_BYTE {
                            assert(s[i] == CR_BYTE);
                            assert(i != 0);
                            assert(s[i] == r[i - 1]);
                        }
                    }
                },
            }
            law_in_style_is_unchanged(r, target);
            if is_eol_byte(s[0]) {
                assert(s =~= eol_bytes(target) + r);
            } else {
                assert(s =~= seq![s[0]] + r);
            }
        }
    }
}

/// Normalizing twice to the same style gives what normalizing once gave.
pub proof fn law_normalize_is_idempotent(s: Seq<u8>, target: LineEnding)
    ensures
        normalized(normalized(s, target), target) == normalized(s, target),
{
    law_normalized_is_in_style(s, target);
    law_in_style_is_unchanged(normalized(s, target), target);
}

proof fn lemma_after_eol(x: Seq<u8>, a: LineEnding, b: LineEnding)
    requires
        in_style(x, a),
    ensures
        normalized(eol_bytes(a) + x, b) == eol_bytes(b) + normalized(x, b),
        line_break_count(eol_bytes(a) + x) == 1 + line_break_count(x),
{
    let s = eol_bytes(a) + x;
    match a {
        LineEnding::CRLF => {
            assert(s.skip(2) =~= x);
        },
        LineEnding::LF => {
            assert(s.skip(1) =~= x);
        },
        LineEnding::CR => {
            assert(s.skip(1) =~= x);
            if x.len() > 0 {
                assert(x[0] != LF_BYTE);
                assert(s[1] == x[0]);
            }
        },
    }
}

proof fn lemma_after_byte(c: u8, x: Seq<u8>, b: LineEnding)
    requires
        !is_eol_byte(c),
    ensures
        normalized(seq![c] + x, b) == seq![c] + normalized(x, b),
        line_break_count(seq![c] + x) == line_break_count(x),
        without_line_breaks(seq![c] + x) == seq![c] + without_line_breaks(x),
{
    assert((seq![c] + x).skip(1) =~= x);
}

/// Normalizing to one style and then to another gives what normalizing to
/// the second style directly gives: no line ending is lost or invented.
pub proof fn law_retarget(s: Seq<u8>, first: LineEnding, second: LineEnding)
    ensures
        normalized(normalized(s, first), second) == normalized(s, second),
    decreases s.len(),
{
    if s.len() > 0 {
        let k: int = if starts_with_crlf(s) { 2 } else { 1 };
        let r = s.skip(k);
        law_retarget(r, first, second);
        if starts_with_crlf(s) || is_eol_byte(s[0]) {
            law_normalized_is_in_style(r, first);
            lemma_after_eol(normalized(r, first), first, second);
        } else {
            lemma_after_byte(s[0], normalized(r, first), second);
        }
    }
}

/// Normalizing keeps the number of line endings.
pub proof fn law_line_count_kept(s: Seq<u8>, target: LineEnding)
    ensures
        line_break_count(normalized(s, target)) == line_break_count(s),
    decreases s.len(),
{
    if s.len() > 0 {
        let k: int = if starts_with_crlf(s) { 2 } else { 1 };
        let r = s.skip(k);
        law_line_count_kept(r, target);
        if starts_with_crlf(s) || is_eol_byte(s[0]) {
            law_normalized_is_in_style(r, target);
            lemma_after_eol(normalized(r, target), target, target);
        } else {
            lemma_after_byte(s[0], normalized(r, target), target);
        }
    }
}

proof fn lemma_without_breaks_of_eol(x: Seq<u8>, t: LineEnding)
    ensures
        without_line_breaks(eol_bytes(t) + x) == without_line_breaks(x),
{
    let s = eol_bytes(t) + x;
    match t {
        LineEnding::CRLF => {
            let s1 = s.skip(1);
            assert(s1.skip(1) =~= x);
            assert(s1[0] == LF_BYTE);
            assert(without_line_breaks(s1) == without_line_breaks(s1.skip(1)));
            assert(without_line_breaks(s) == without_line_breaks(s1));
        },
        _ => {
            assert(s.skip(1) =~= x);
        },
    }
}

/// Only line endings change: the bytes between them, a leading byte-order mark
/// among them, come out as they went in.
pub proof fn law_text_between_breaks_kept(s: Seq<u8>, target: LineEnding)
    ensures
        without_line_breaks(normalized(s, target)) == without_line_breaks(s),
    decreases s.len(),
{
    if s.len() > 0 {
        if starts_with_crlf(s) {
            law_text_between_breaks_kept(s.skip(2), target);
            lemma_without_breaks_of_eol(normalized(s.skip(2), target), target);
            let s1 = s.skip(1);
            assert(s1.skip(1) =~= s.skip(2));
            assert(s1[0] == LF_BYTE);
            assert(without_line_breaks(s1) == without_line_breaks(s1.skip(1)));
            assert(without_line_breaks(s) == without_line_breaks(s1));
        } else {
            law_text_between_breaks_kept(s.skip(1), target);
            if is_eol_byte(s[0]) {
                lemma_without_breaks_of_eol(normalized(s.skip(1), target), target);
            } else {
                lemma_after_byte(s[0], normalized(s.skip(1), target), target);
            }
        }
    }
}


/// Whether a file of `size` bytes is large enough to be warned about.
pub fn is_large_file(size: u64) -> (r: bool)
    ensures
        r == (size > LARGE_FILE_THRESHOLD),
{
    size > LARGE_FILE_THRESHOLD
}

/// Whether `a` and `b` hold the same bytes.
fn same_bytes(a: &[u8], b: &[u8]) -> (r: bool)
    ensures
        r == (a@ == b@),
{
    if a.len() != b.len() {
        return false;
    }
    let mut i: usize = 0;
    while i < a.len()
        invariant
            a@.len() == b@.len(),
            i <= a@.len(),
            forall|k: int| 0 <= k < i ==> a@[k] == b@[k],
        decreases a.len() - i,
    {
        if a[i] != b[i] {
            return false;
        }
        i = i + 1;
    }
    assert(a@ =~= b@);
    true
}

/// Decides what becomes of a file whose content is `content`: an empty file
/// is skipped; a file already in the `target` style is reported unchanged;
/// any other file is reported changed, and outside a dry run its normalized
/// content is handed back to be written in its place.
pub fn convert_content(content: &[u8], target: LineEnding, dry_run: bool) -> (c: Conversion)
    ensures
        c.result.error is None,
        c.result.skipped == (content@.len() == 0),
        c.result.changed == (content@.len() > 0 && normalized(content@, target) != content@),
        c.output is Some == (c.result.changed && !dry_run),
        c.output is Some ==> c.output->Some_0@ == normalized(content@, target),
{
    if content.len() == 0 {
        return Conversion {
            result: ConvertResult { changed: false, skipped: true, error: None },
            output: None,
        };
    }
    let normalized_bytes = normalize_line_endings(content, target);
    if same_bytes(normalized_bytes.as_slice(), content) {
        return Conversion {
            result: ConvertResult { changed: false, skipped: false, error: None },
            output: None,
        };
    }
    if dry_run {
        return Conversion {
            result: ConvertResult { changed: true, skipped: false, error: None },
            output: None,
        };
    }
    Conversion {
        result: ConvertResult { changed: true, skipped: false, error: None },
        output: Some(normalized_bytes),
    }
}

} // verus!
