//! The plain-text song format: a `BPM: <n>` header line followed by one line
//! per onset, `"<onset>: <tone><octave>-<duration> ..."`. This module parses
//! and serializes the format on bytes; reading and writing files is the
//! caller's business.

use vstd::prelude::*;
use crate::pitch::{Pitch, Tone};
use crate::score::{
    after_cur, lemma_min_onset_props, lemma_notes_after_elems, lemma_notes_after_none,
    lemma_notes_after_strict, min_onset, note_wf, notes_after, starting_at, toggle_spec, Note,
    Score,
};

verus! {

/// The path of the last save, if any.
pub struct SongFile {
    pub current_path: Option<String>,
}

impl SongFile {
    pub fn new() -> (r: Self)
        ensures
            r.current_path is None,
    {
        SongFile { current_path: None }
    }
}

/// Why a song text was rejected.
#[derive(Debug, Clone, Copy, PartialEq, Eq, Structural)]
pub enum SongParseError {
    /// A `BPM:` header whose value is not a number up to `u16::MAX`.
    InvalidBpm,
    /// A note line without exactly one `:` separator.
    InvalidLine,
    /// A note line whose onset is not a `u64` number.
    InvalidOnset,
    /// A token that is not `<tone><octave>-<duration>` with a known tone, an
    /// octave from 0 to 8, and a positive duration.
    InvalidNote,
    /// A note whose end would not fit in the time type.
    NoteOutOfRange,
}

// ------------------------------------------------------------------
// Bytes: digits, whitespace, searching, slicing, trimming
// ------------------------------------------------------------------

/// An ASCII decimal digit.
pub open spec fn is_digit(b: u8) -> bool {
    48 <= b <= 57
}

/// Whitespace that the format ignores: space, tab, carriage return.
pub open spec fn is_space(b: u8) -> bool {
    b == 32 || b == 9 || b == 13
}

/// Every byte of `s` is a digit.
pub open spec fn all_digits(s: Seq<u8>) -> bool {
    forall|i: int| 0 <= i < s.len() ==> is_digit(#[trigger] s[i])
}

/// The number a digit string denotes.
pub open spec fn digits_val(s: Seq<u8>) -> int
    decreases s.len(),
{
    if s.len() == 0 {
        0
    } else {
        digits_val(s.drop_last()) * 10 + (s.last() - 48)
    }
}

/// The canonical decimal representation of `v >= 0`.
pub open spec fn dec_spec(v: int) -> Seq<u8>
    decreases v,
{
    if v < 10 {
        seq![(48 + v) as u8]
    } else {
        dec_spec(v / 10).push((48 + v % 10) as u8)
    }
}

/// Index of the first occurrence of `b` in `s`, or -1.
pub open spec fn find_byte_spec(s: Seq<u8>, b: u8) -> int
    decreases s.len(),
{
    if s.len() == 0 {
        -1
    } else if s[0] == b {
        0
    } else {
        let r = find_byte_spec(s.drop_first(), b);
        if r == -1 {
            -1
        } else {
            r + 1
        }
    }
}

/// A digit string denotes a non-negative number.
pub proof fn lemma_digits_val_nonneg(s: Seq<u8>)
    requires
        all_digits(s),
    ensures
        digits_val(s) >= 0,
    decreases s.len(),
{
    if s.len() > 0 {
        let rest = s.drop_last();
        assert(forall|i: int| 0 <= i < rest.len() ==> rest[i] == s[i]);
        lemma_digits_val_nonneg(rest);
    }
}

/// Extending a digit string can only grow its value.
pub proof fn lemma_digits_val_prefix(s: Seq<u8>, i: int)
    requires
        all_digits(s),
        0 <= i <= s.len(),
    ensures
        digits_val(s.take(i)) <= digits_val(s),
    decreases s.len() - i,
{
    if i < s.len() {
        lemma_digits_val_prefix(s, i + 1);
        let t = s.take(i + 1);
        assert(t.drop_last() =~= s.take(i));
        assert(forall|k: int| 0 <= k < t.len() ==> t[k] == s[k]);
        lemma_digits_val_nonneg(s.take(i));
        assert(digits_val(s.take(i)) <= digits_val(s.take(i)) * 10 + (t.last() - 48));
    } else {
        assert(s.take(i) =~= s);
    }
}

/// `find_byte_spec` is the index of the first hit.
pub proof fn lemma_find_byte_at(s: Seq<u8>, b: u8, i: int)
    requires
        0 <= i < s.len(),
        s[i] == b,
        forall|j: int| 0 <= j < i ==> s[j] != b,
    ensures
        find_byte_spec(s, b) == i,
    decreases s.len(),
{
    if s[0] == b {
        assert(i == 0);
    } else {
        let rest = s.drop_first();
        assert(forall|j: int| 0 <= j < rest.len() ==> rest[j] == s[j + 1]);
        lemma_find_byte_at(rest, b, i - 1);
    }
}

/// Without a hit, `find_byte_spec` reports -1.
pub proof fn lemma_find_byte_none(s: Seq<u8>, b: u8)
    requires
        forall|j: int| 0 <= j < s.len() ==> s[j] != b,
    ensures
        find_byte_spec(s, b) == -1,
    decreases s.len(),
{
    if s.len() > 0 {
        let rest = s.drop_first();
        assert(forall|j: int| 0 <= j < rest.len() ==> rest[j] == s[j + 1]);
        lemma_find_byte_none(rest, b);
    }
}

/// Index of the first occurrence of `b`, if any.
pub fn find_byte(s: &Vec<u8>, b: u8) -> (r: Option<usize>)
    ensures
        r is None ==> find_byte_spec(s@, b) == -1 && forall|j: int|
            0 <= j < s@.len() ==> s@[j] != b,
        r matches Some(i) ==> i < s@.len() && s@[i as int] == b && i as int == find_byte_spec(
            s@,
            b,
        ),
{
    let mut i: usize = 0;
    while i < s.len()
        invariant
            i <= s.len(),
            forall|j: int| 0 <= j < i ==> s@[j] != b,
        decreases s.len() - i,
    {
        if s[i] == b {
            proof {
                lemma_find_byte_at(s@, b, i as int);
            }
            return Some(i);
        }
        i = i + 1;
    }
    proof {
        lemma_find_byte_none(s@, b);
    }
    None
}

/// The bytes `v[from..to]` as a fresh vector.
pub fn sub_vec(v: &Vec<u8>, from: usize, to: usize) -> (r: Vec<u8>)
    requires
        from <= to <= v@.len(),
    ensures
        r@ == v@.subrange(from as int, to as int),
{
    let mut r: Vec<u8> = Vec::new();
    let mut k: usize = from;
    while k < to
        invariant
            from <= k <= to <= v@.len(),
            r@.len() == k - from,
            forall|m: int| 0 <= m < r@.len() ==> r@[m] == v@[from + m],
        decreases to - k,
    {
        r.push(v[k]);
        k = k + 1;
    }
    proof {
        assert(r@ =~= v@.subrange(from as int, to as int));
    }
    r
}

/// `s` with leading whitespace removed.
pub open spec fn trim_front(s: Seq<u8>) -> Seq<u8>
    decreases s.len(),
{
    if s.len() > 0 && is_space(s[0]) {
        trim_front(s.drop_first())
    } else {
        s
    }
}

/// `s` with trailing whitespace removed.
pub open spec fn trim_back(s: Seq<u8>) -> Seq<u8>
    decreases s.len(),
{
    if s.len() > 0 && is_space(s.last()) {
        trim_back(s.drop_last())
    } else {
        s
    }
}

/// `s` with whitespace removed at both ends.
pub open spec fn trim_spec(s: Seq<u8>) -> Seq<u8> {
    trim_back(trim_front(s))
}

proof fn lemma_trim_front_range(s: Seq<u8>, k: int)
    requires
        0 <= k <= s.len(),
        forall|j: int| 0 <= j < k ==> is_space(#[trigger] s[j]),
        k == s.len() || !is_space(s[k]),
    ensures
        trim_front(s) == s.subrange(k, s.len() as int),
    decreases k,
{
    if k == 0 {
        assert(s.subrange(0, s.len() as int) =~= s);
    } else {
        let rest = s.drop_first();
        assert(forall|j: int| 0 <= j < rest.len() ==> rest[j] == s[j + 1]);
        lemma_trim_front_range(rest, k - 1);
        assert(rest.subrange(k - 1, rest.len() as int) =~= s.subrange(k, s.len() as int));
    }
}

proof fn lemma_trim_back_range(s: Seq<u8>, k: int)
    requires
        0 <= k <= s.len(),
        forall|j: int| k <= j < s.len() ==> is_space(#[trigger] s[j]),
        k == 0 || !is_space(s[k - 1]),
    ensures
        trim_back(s) == s.subrange(0, k),
    decreases s.len() - k,
{
    if k == s.len() {
        assert(s.subrange(0, k) =~= s);
    } else {
        let rest = s.drop_last();
        assert(forall|j: int| 0 <= j < rest.len() ==> rest[j] == s[j]);
        lemma_trim_back_range(rest, k);
        assert(rest.subrange(0, k) =~= s.subrange(0, k));
    }
}

/// `v` with whitespace removed at both ends.
pub fn trim_vec(v: &Vec<u8>) -> (r: Vec<u8>)
    ensures
        r@ == trim_spec(v@),
{
    let mut start: usize = 0;
    while start < v.len() && (v[start] == 32 || v[start] == 9 || v[start] == 13)
        invariant
            start <= v@.len(),
            forall|j: int| 0 <= j < start ==> is_space(#[trigger] v@[j]),
        decreases v@.len() - start,
    {
        start = start + 1;
    }
    proof {
        lemma_trim_front_range(v@, start as int);
    }
    let mut end: usize = v.len();
    while end > start && (v[end - 1] == 32 || v[end - 1] == 9 || v[end - 1] == 13)
        invariant
            start <= end <= v@.len(),
            forall|j: int| end <= j < v@.len() ==> is_space(#[trigger] v@[j]),
        decreases end,
    {
        end = end - 1;
    }
    let r = sub_vec(v, start, end);
    proof {
        let f = v@.subrange(start as int, v@.len() as int);
        assert(forall|j: int| 0 <= j < f.len() ==> f[j] == v@[start + j]);
        lemma_trim_back_range(f, end - start);
        assert(f.subrange(0, end - start) =~= v@.subrange(start as int, end as int));
    }
    r
}

/// Parses a whole byte string as a `u64`: defined exactly when the string is
/// nonempty, all digits, and its value fits.
pub fn parse_u64(s: &Vec<u8>) -> (r: Option<u64>)
    ensures
        r is Some <==> (s@.len() > 0 && all_digits(s@) && digits_val(s@) <= u64::MAX),
        r matches Some(v) ==> v as int == digits_val(s@),
{
    if s.len() == 0 {
        return None;
    }
    let mut v: u64 = 0;
    let mut i: usize = 0;
    while i < s.len()
        invariant
            i <= s@.len(),
            all_digits(s@.take(i as int)),
            v as int == digits_val(s@.take(i as int)),
        decreases s@.len() - i,
    {
        proof {
            assert(s@.take(i as int).push(s@[i as int]) =~= s@.take(i + 1));
            assert(s@.take(i + 1).drop_last() =~= s@.take(i as int));
        }
        let b = s[i];
        if !(48 <= b && b <= 57) {
            proof {
                assert(!is_digit(s@[i as int]));
            }
            return None;
        }
        let d = (b - 48) as u64;
        let overflowed: bool = match v.checked_mul(10) {
            Some(v10) => match v10.checked_add(d) {
                Some(vd) => {
                    v = vd;
                    false
                },
                None => true,
            },
            None => true,
        };
        if overflowed {
            proof {
                assert(digits_val(s@.take(i + 1)) > u64::MAX);
                if all_digits(s@) {
                    lemma_digits_val_prefix(s@, i + 1);
                }
            }
            return None;
        }
        i = i + 1;
    }
    proof {
        assert(s@.take(s@.len() as int) =~= s@);
    }
    Some(v)
}

// ------------------------------------------------------------------
// Tone names and note tokens
// ------------------------------------------------------------------

/// How the format writes each semitone class; sharps are written `s`.
pub open spec fn tone_name_spec(t: Tone) -> Seq<u8> {
    match t {
        Tone::C => seq![67u8],
        Tone::Cs => seq![67u8, 115u8],
        Tone::D => seq![68u8],
        Tone::Ds => seq![68u8, 115u8],
        Tone::E => seq![69u8],
        Tone::F => seq![70u8],
        Tone::Fs => seq![70u8, 115u8],
        Tone::G => seq![71u8],
        Tone::Gs => seq![71u8, 115u8],
        Tone::A => seq![65u8],
        Tone::As => seq![65u8, 115u8],
        Tone::B => seq![66u8],
    }
}

/// The semitone class a name denotes, if any.
pub open spec fn tone_of_name(s: Seq<u8>) -> Option<Tone> {
    if s == tone_name_spec(Tone::C) {
        Some(Tone::C)
    } else if s == tone_name_spec(Tone::Cs) {
        Some(Tone::Cs)
    } else if s == tone_name_spec(Tone::D) {
        Some(Tone::D)
    } else if s == tone_name_spec(Tone::Ds) {
        Some(Tone::Ds)
    } else if s == tone_name_spec(Tone::E) {
        Some(Tone::E)
    } else if s == tone_name_spec(Tone::F) {
        Some(Tone::F)
    } else if s == tone_name_spec(Tone::Fs) {
        Some(Tone::Fs)
    } else if s == tone_name_spec(Tone::G) {
        Some(Tone::G)
    } else if s == tone_name_spec(Tone::Gs) {
        Some(Tone::Gs)
    } else if s == tone_name_spec(Tone::A) {
        Some(Tone::A)
    } else if s == tone_name_spec(Tone::As) {
        Some(Tone::As)
    } else if s == tone_name_spec(Tone::B) {
        Some(Tone::B)
    } else {
        None
    }
}

/// Decodes a tone name.
pub fn parse_tone(s: &Vec<u8>) -> (r: Option<Tone>)
    ensures
        r == tone_of_name(s@),
{
    if s.len() == 1 {
        let b = s[0];
        proof {
            if b == 67 {
                assert(s@ =~= tone_name_spec(Tone::C));
            } else if b == 68 {
                assert(s@ =~= tone_name_spec(Tone::D));
            } else if b == 69 {
                assert(s@ =~= tone_name_spec(Tone::E));
            } else if b == 70 {
                assert(s@ =~= tone_name_spec(Tone::F));
            } else if b == 71 {
                assert(s@ =~= tone_name_spec(Tone::G));
            } else if b == 65 {
                assert(s@ =~= tone_name_spec(Tone::A));
            } else if b == 66 {
                assert(s@ =~= tone_name_spec(Tone::B));
            }
        }
        if b == 67 {
            Some(Tone::C)
        } else if b == 68 {
            Some(Tone::D)
        } else if b == 69 {
            Some(Tone::E)
        } else if b == 70 {
            Some(Tone::F)
        } else if b == 71 {
            Some(Tone::G)
        } else if b == 65 {
            Some(Tone::A)
        } else if b == 66 {
            Some(Tone::B)
        } else {
            None
        }
    } else if s.len() == 2 && s[1] == 115 {
        let b = s[0];
        proof {
            if b == 67 {
                assert(s@ =~= tone_name_spec(Tone::Cs));
            } else if b == 68 {
                assert(s@ =~= tone_name_spec(Tone::Ds));
            } else if b == 70 {
                assert(s@ =~= tone_name_spec(Tone::Fs));
            } else if b == 71 {
                assert(s@ =~= tone_name_spec(Tone::Gs));
            } else if b == 65 {
                assert(s@ =~= tone_name_spec(Tone::As));
            }
        }
        if b == 67 {
            Some(Tone::Cs)
        } else if b == 68 {
            Some(Tone::Ds)
        } else if b == 70 {
            Some(Tone::Fs)
        } else if b == 71 {
            Some(Tone::Gs)
        } else if b == 65 {
            Some(Tone::As)
        } else {
            None
        }
    } else {
        None
    }
}

/// One parsed note token: a pitch and a duration.
#[derive(Debug, Clone, Copy, PartialEq, Eq, Structural)]
pub struct NoteTok {
    pub pitch: Pitch,
    pub duration_b32: u64,
}

/// What a note token `<tone><octave>-<duration>` denotes: defined exactly
/// for one `-`, a known tone name, an octave digit from 0 to 8, and a
/// positive duration that fits in a `u64`.
pub open spec fn note_token_spec(s: Seq<u8>) -> Option<NoteTok> {
    let i = find_byte_spec(s, 45);
    if i < 0 {
        None
    } else {
        let head = s.subrange(0, i);
        let tail = s.subrange(i + 1, s.len() as int);
        if find_byte_spec(tail, 45) >= 0 {
            None
        } else if head.len() < 2 {
            None
        } else if !(48 <= head.last() <= 56) {
            None
        } else {
            match tone_of_name(head.drop_last()) {
                Option::None => None,
                Option::Some(t) => {
                    if tail.len() > 0 && all_digits(tail) && digits_val(tail) <= u64::MAX
                        && digits_val(tail) >= 1 {
                        Some(
                            NoteTok {
                                pitch: Pitch { tone: t, octave: (head.last() - 48) as u16 },
                                duration_b32: digits_val(tail) as u64,
                            },
                        )
                    } else {
                        None
                    }
                },
            }
        }
    }
}

/// Decodes one note token.
pub fn parse_note_token(tok: &Vec<u8>) -> (r: Option<NoteTok>)
    ensures
        r == note_token_spec(tok@),
        r matches Some(nt) ==> nt.pitch.wf() && 1 <= nt.duration_b32,
{
    let i = match find_byte(tok, 45) {
        Some(i) => i,
        None => {
            return None;
        },
    };
    proof {
        lemma_find_byte_in_range(tok@, 45);
    }
    let n = tok.len();
    let head = sub_vec(tok, 0, i);
    let tail = sub_vec(tok, i + 1, n);
    if find_byte(&tail, 45).is_some() {
        return None;
    }
    if head.len() < 2 {
        return None;
    }
    let oc = head[head.len() - 1];
    if !(48 <= oc && oc <= 56) {
        return None;
    }
    let tone_part = sub_vec(&head, 0, head.len() - 1);
    proof {
        assert(tone_part@ =~= head@.drop_last());
    }
    let t = match parse_tone(&tone_part) {
        Some(t) => t,
        None => {
            return None;
        },
    };
    let d = match parse_u64(&tail) {
        Some(d) => d,
        None => {
            return None;
        },
    };
    if d == 0 {
        return None;
    }
    Some(NoteTok { pitch: Pitch { tone: t, octave: (oc - 48) as u16 }, duration_b32: d })
}

/// A found byte lies inside the string.
pub proof fn lemma_find_byte_in_range(s: Seq<u8>, b: u8)
    requires
        find_byte_spec(s, b) >= 0,
    ensures
        find_byte_spec(s, b) < s.len(),
        s[find_byte_spec(s, b)] == b,
    decreases s.len(),
{
    if s.len() > 0 && s[0] != b {
        lemma_find_byte_in_range(s.drop_first(), b);
    }
}

// ------------------------------------------------------------------
// Whitespace tokenization
// ------------------------------------------------------------------

/// Length of the leading run of non-whitespace bytes.
pub open spec fn first_space(s: Seq<u8>) -> int
    decreases s.len(),
{
    if s.len() == 0 {
        0
    } else if is_space(s[0]) {
        0
    } else {
        1 + first_space(s.drop_first())
    }
}

/// `first_space` stays in range, the run before it is non-whitespace, and
/// the byte at it (if any) is whitespace.
pub proof fn lemma_first_space_range(s: Seq<u8>)
    ensures
        0 <= first_space(s) <= s.len(),
        forall|j: int| 0 <= j < first_space(s) ==> !is_space(#[trigger] s[j]),
        first_space(s) < s.len() ==> is_space(s[first_space(s)]),
    decreases s.len(),
{
    if s.len() > 0 && !is_space(s[0]) {
        let rest = s.drop_first();
        lemma_first_space_range(rest);
        assert(forall|j: int| 0 <= j < rest.len() ==> rest[j] == s[j + 1]);
        assert forall|j: int| 0 <= j < first_space(s) implies !is_space(#[trigger] s[j]) by {
            if j > 0 {
                assert(rest[j - 1] == s[j]);
                assert(!is_space(rest[j - 1]));
            }
        }
    }
}

/// A non-whitespace run of length `k` followed by whitespace or the end
/// pins `first_space` at `k`.
pub proof fn lemma_first_space_at(s: Seq<u8>, k: int)
    requires
        0 <= k <= s.len(),
        forall|j: int| 0 <= j < k ==> !is_space(#[trigger] s[j]),
        k == s.len() || is_space(s[k]),
    ensures
        first_space(s) == k,
    decreases k,
{
    if k == 0 {
    } else {
        let rest = s.drop_first();
        assert(forall|j: int| 0 <= j < rest.len() ==> rest[j] == s[j + 1]);
        lemma_first_space_at(rest, k - 1);
    }
}

/// The whitespace-separated tokens of `s`, in order, each nonempty.
pub open spec fn split_ws(s: Seq<u8>) -> Seq<Seq<u8>>
    decreases s.len(),
    via split_ws_decreases
{
    if s.len() == 0 {
        Seq::empty()
    } else if is_space(s[0]) {
        split_ws(s.drop_first())
    } else {
        seq![s.subrange(0, first_space(s))] + split_ws(
            s.subrange(first_space(s), s.len() as int),
        )
    }
}

#[via_fn]
proof fn split_ws_decreases(s: Seq<u8>) {
    if s.len() > 0 && !is_space(s[0]) {
        lemma_first_space_range(s);
    }
}

/// The views of a list of byte vectors.
pub open spec fn views(vs: Seq<Vec<u8>>) -> Seq<Seq<u8>> {
    vs.map_values(|v: Vec<u8>| v@)
}

/// Splits `v` into its whitespace-separated tokens.
pub fn tokens_of(v: &Vec<u8>) -> (r: Vec<Vec<u8>>)
    ensures
        views(r@) == split_ws(v@),
{
    let mut parts: Vec<Vec<u8>> = Vec::new();
    let mut st: usize = 0;
    proof {
        assert(v@.subrange(0, v@.len() as int) =~= v@);
        assert(views(parts@) + split_ws(v@) =~= split_ws(v@));
    }
    while st < v.len()
        invariant
            st <= v@.len(),
            split_ws(v@) == views(parts@) + split_ws(v@.subrange(st as int, v@.len() as int)),
        decreases v@.len() - st,
    {
        let b = v[st];
        if b == 32 || b == 9 || b == 13 {
            proof {
                let rem = v@.subrange(st as int, v@.len() as int);
                assert(is_space(rem[0]));
                assert(rem.drop_first() =~= v@.subrange(st + 1, v@.len() as int));
            }
            st = st + 1;
        } else {
            let mut en: usize = st;
            while en < v.len() && !(v[en] == 32 || v[en] == 9 || v[en] == 13)
                invariant
                    st <= en <= v@.len(),
                    forall|j: int| st <= j < en ==> !is_space(#[trigger] v@[j]),
                decreases v@.len() - en,
            {
                en = en + 1;
            }
            let tok = sub_vec(v, st, en);
            proof {
                let rem = v@.subrange(st as int, v@.len() as int);
                assert(!is_space(rem[0]));
                assert(forall|j: int| 0 <= j < en - st ==> rem[j] == v@[st + j]);
                lemma_first_space_at(rem, en - st);
                assert(rem.subrange(0, en - st) =~= v@.subrange(st as int, en as int));
                assert(rem.subrange(en - st, rem.len() as int) =~= v@.subrange(
                    en as int,
                    v@.len() as int,
                ));
                assert(views(parts@.push(tok)) =~= views(parts@).push(tok@));
                assert(views(parts@) + seq![tok@] + split_ws(
                    v@.subrange(en as int, v@.len() as int),
                ) =~= views(parts@.push(tok)) + split_ws(v@.subrange(en as int, v@.len() as int)));
            }
            parts.push(tok);
            st = en;
        }
    }
    proof {
        assert(v@.subrange(st as int, v@.len() as int).len() == 0);
        assert(views(parts@) + split_ws(v@.subrange(st as int, v@.len() as int)) =~= views(
            parts@,
        ));
    }
    parts
}

// ------------------------------------------------------------------
// Lines
// ------------------------------------------------------------------

/// One parsed line of the song format.
#[derive(Debug)]
pub enum ParsedLine {
    Blank,
    Bpm(u16),
    Notes(u64, Vec<NoteTok>),
}

/// Spec-level counterpart of `ParsedLine`, with the token list as a
/// sequence.
pub enum ParsedLineSpec {
    Blank,
    Bpm(u16),
    Notes(u64, Seq<NoteTok>),
}

/// Every token decoded, or `None` at the first bad one.
pub open spec fn parse_tokens_spec(ts: Seq<Seq<u8>>) -> Option<Seq<NoteTok>>
    decreases ts.len(),
{
    if ts.len() == 0 {
        Some(Seq::empty())
    } else {
        match parse_tokens_spec(ts.drop_last()) {
            Option::None => None,
            Option::Some(nts) => match note_token_spec(ts.last()) {
                Option::None => None,
                Option::Some(nt) => Some(nts.push(nt)),
            },
        }
    }
}

/// Tokens that decode are valid notes: a valid pitch and a positive
/// duration.
pub proof fn lemma_tokens_wf(ts: Seq<Seq<u8>>)
    requires
        parse_tokens_spec(ts) is Some,
    ensures
        forall|k: int|
            0 <= k < parse_tokens_spec(ts)->Some_0.len() ==> (#[trigger] parse_tokens_spec(
                ts,
            )->Some_0[k]).pitch.wf() && 1 <= parse_tokens_spec(ts)->Some_0[k].duration_b32,
    decreases ts.len(),
{
    if ts.len() > 0 {
        lemma_tokens_wf(ts.drop_last());
    }
}

/// The header bytes `BPM:`.
pub open spec fn bpm_header() -> Seq<u8> {
    seq![66u8, 80u8, 77u8, 58u8]
}

/// What one line of the format denotes. A trimmed line is blank, a `BPM:`
/// header with a `u16` value, or `<onset>: <token> <token> ...` with exactly
/// one colon, a `u64` onset, and decodable tokens.
pub open spec fn parse_line_spec(s: Seq<u8>) -> Result<ParsedLineSpec, SongParseError> {
    let t = trim_spec(s);
    if t.len() >= 4 && t.subrange(0, 4) == bpm_header() {
        let rest = trim_spec(t.subrange(4, t.len() as int));
        if rest.len() > 0 && all_digits(rest) && digits_val(rest) <= u16::MAX {
            Ok(ParsedLineSpec::Bpm(digits_val(rest) as u16))
        } else {
            Err(SongParseError::InvalidBpm)
        }
    } else if t.len() == 0 {
        Ok(ParsedLineSpec::Blank)
    } else {
        let ci = find_byte_spec(t, 58);
        if ci < 0 {
            Err(SongParseError::InvalidLine)
        } else {
            let after = t.subrange(ci + 1, t.len() as int);
            if find_byte_spec(after, 58) >= 0 {
                Err(SongParseError::InvalidLine)
            } else {
                let onset_part = trim_spec(t.subrange(0, ci));
                if !(onset_part.len() > 0 && all_digits(onset_part) && digits_val(onset_part)
                    <= u64::MAX) {
                    Err(SongParseError::InvalidOnset)
                } else {
                    match parse_tokens_spec(split_ws(after)) {
                        Option::None => Err(SongParseError::InvalidNote),
                        Option::Some(nts) => Ok(
                            ParsedLineSpec::Notes(digits_val(onset_part) as u64, nts),
                        ),
                    }
                }
            }
        }
    }
}

/// Decodes one line of the song format.
#[verifier::loop_isolation(false)]
pub fn parse_line(line: &Vec<u8>) -> (r: Result<ParsedLine, SongParseError>)
    ensures
        parse_line_spec(line@) matches Err(e) ==> (r matches Err(e2) && e2 == e),
        parse_line_spec(line@) == Ok::<ParsedLineSpec, SongParseError>(ParsedLineSpec::Blank)
            ==> r matches Ok(ParsedLine::Blank),
        parse_line_spec(line@) matches Ok(ParsedLineSpec::Bpm(b)) ==> (r matches Ok(
            ParsedLine::Bpm(b2),
        ) && b2 == b),
        parse_line_spec(line@) matches Ok(ParsedLineSpec::Notes(o, nts)) ==> (r matches Ok(
            ParsedLine::Notes(o2, v),
        ) && o2 == o && v@ == nts && forall|k: int|
            0 <= k < v@.len() ==> (#[trigger] v@[k]).pitch.wf() && 1 <= v@[k].duration_b32),
{
    let t = trim_vec(line);
    let is_bpm = t.len() >= 4 && t[0] == 66 && t[1] == 80 && t[2] == 77 && t[3] == 58;
    proof {
        if is_bpm {
            assert(t@.subrange(0, 4) =~= bpm_header());
        } else if t@.len() >= 4 && t@.subrange(0, 4) == bpm_header() {
            assert(t@[0] == 66 && t@[1] == 80 && t@[2] == 77 && t@[3] == 58) by {
                assert(t@.subrange(0, 4)[0] == t@[0]);
                assert(t@.subrange(0, 4)[1] == t@[1]);
                assert(t@.subrange(0, 4)[2] == t@[2]);
                assert(t@.subrange(0, 4)[3] == t@[3]);
                assert(bpm_header()[0] == 66);
                assert(bpm_header()[1] == 80);
                assert(bpm_header()[2] == 77);
                assert(bpm_header()[3] == 58);
            }
            assert(false);
        }
    }
    if is_bpm {
        let rest_raw = sub_vec(&t, 4, t.len());
        let rest = trim_vec(&rest_raw);
        match parse_u64(&rest) {
            Some(v) if v <= 65535 => Ok(ParsedLine::Bpm(v as u16)),
            _ => Err(SongParseError::InvalidBpm),
        }
    } else if t.len() == 0 {
        Ok(ParsedLine::Blank)
    } else {
        let ci = match find_byte(&t, 58) {
            Some(ci) => ci,
            None => {
                return Err(SongParseError::InvalidLine);
            },
        };
        proof {
            lemma_find_byte_in_range(t@, 58);
        }
        let tn = t.len();
        let after = sub_vec(&t, ci + 1, tn);
        if find_byte(&after, 58).is_some() {
            return Err(SongParseError::InvalidLine);
        }
        let onset_raw = sub_vec(&t, 0, ci);
        let onset_part = trim_vec(&onset_raw);
        let onset = match parse_u64(&onset_part) {
            Some(o) => o,
            None => {
                return Err(SongParseError::InvalidOnset);
            },
        };
        let toks = tokens_of(&after);
        let ghost tseq = split_ws(after@);
        let mut nts: Vec<NoteTok> = Vec::new();
        let mut k: usize = 0;
        while k < toks.len()
            invariant
                k <= toks@.len(),
                views(toks@) == tseq,
                parse_tokens_spec(tseq.take(k as int)) is Some,
                nts@ == parse_tokens_spec(tseq.take(k as int))->Some_0,
                forall|m: int|
                    0 <= m < nts@.len() ==> (#[trigger] nts@[m]).pitch.wf() && 1
                        <= nts@[m].duration_b32,
            decreases toks@.len() - k,
        {
            proof {
                assert(tseq.take(k + 1).drop_last() =~= tseq.take(k as int));
                assert(tseq.take(k + 1).last() == tseq[k as int]);
                assert(tseq[k as int] == toks@[k as int]@);
            }
            let nt = match parse_note_token(&toks[k]) {
                Some(nt) => nt,
                None => {
                    proof {
                        lemma_parse_tokens_none_persists(tseq, k + 1);
                        assert(tseq.take(tseq.len() as int) =~= tseq);
                    }
                    return Err(SongParseError::InvalidNote);
                },
            };
            nts.push(nt);
            k = k + 1;
        }
        proof {
            assert(tseq.take(tseq.len() as int) =~= tseq);
        }
        Ok(ParsedLine::Notes(onset, nts))
    }
}

// ------------------------------------------------------------------
// Loading a whole song text
// ------------------------------------------------------------------

/// Toggle-inserts the tokens of one line at `onset`, left to right; `None`
/// as soon as a note would end past the time type.
pub open spec fn apply_tokens(notes: Seq<Note>, onset: u64, toks: Seq<NoteTok>) -> Option<
    Seq<Note>,
>
    decreases toks.len(),
{
    if toks.len() == 0 {
        Some(notes)
    } else {
        match apply_tokens(notes, onset, toks.drop_last()) {
            Option::None => None,
            Option::Some(ns) => {
                let tk = toks.last();
                if onset + tk.duration_b32 <= u64::MAX {
                    Some(toggle_spec(ns, tk.pitch, onset, tk.duration_b32))
                } else {
                    None
                }
            },
        }
    }
}

/// What a whole song text denotes: the lines folded in order over an empty
/// score at the default tempo of 120. Later `BPM:` lines override earlier
/// ones; note lines toggle-insert their notes.
pub open spec fn load_spec(ls: Seq<Seq<u8>>) -> Result<(u16, Seq<Note>), SongParseError>
    decreases ls.len(),
{
    if ls.len() == 0 {
        Ok((120u16, Seq::empty()))
    } else {
        match load_spec(ls.drop_last()) {
            Result::Err(e) => Err(e),
            Result::Ok((bpm, notes)) => match parse_line_spec(ls.last()) {
                Result::Err(e) => Err(e),
                Result::Ok(ParsedLineSpec::Blank) => Ok((bpm, notes)),
                Result::Ok(ParsedLineSpec::Bpm(b)) => Ok((b, notes)),
                Result::Ok(ParsedLineSpec::Notes(o, toks)) => match apply_tokens(notes, o, toks) {
                    Option::None => Err(SongParseError::NoteOutOfRange),
                    Option::Some(n2) => Ok((bpm, n2)),
                },
            },
        }
    }
}

/// Once a prefix of the lines fails, the whole text fails the same way.
pub proof fn lemma_load_err_persists(ls: Seq<Seq<u8>>, k: int)
    requires
        0 <= k <= ls.len(),
        load_spec(ls.take(k)) is Err,
    ensures
        load_spec(ls) == load_spec(ls.take(k)),
    decreases ls.len() - k,
{
    if k < ls.len() {
        assert(ls.take(k + 1).drop_last() =~= ls.take(k));
        lemma_load_err_persists(ls, k + 1);
    } else {
        assert(ls.take(k) =~= ls);
    }
}

/// Once a token of a line is out of range, the whole line is.
pub proof fn lemma_apply_tokens_none_persists(notes: Seq<Note>, onset: u64, ts: Seq<NoteTok>, k: int)
    requires
        0 <= k <= ts.len(),
        apply_tokens(notes, onset, ts.take(k)) is None,
    ensures
        apply_tokens(notes, onset, ts) is None,
    decreases ts.len() - k,
{
    if k < ts.len() {
        assert(ts.take(k + 1).drop_last() =~= ts.take(k));
        lemma_apply_tokens_none_persists(notes, onset, ts, k + 1);
    } else {
        assert(ts.take(k) =~= ts);
    }
}

/// Builds a score from the lines of a song text: exactly the fold that
/// `load_spec` describes, or its first error.
#[verifier::loop_isolation(false)]
pub fn load_score(lines: &Vec<Vec<u8>>) -> (r: Result<Score, SongParseError>)
    ensures
        load_spec(views(lines@)) matches Ok(v) ==> (r matches Ok(sc) && sc.bpm_spec() == v.0
            && sc.notes_seq() == v.1 && sc.wf()),
        load_spec(views(lines@)) matches Err(e) ==> (r matches Err(e2) && e2 == e),
{
    let ghost lseq = views(lines@);
    let mut score = Score::new(120);
    proof {
        assert(lseq.take(0) =~= Seq::<Seq<u8>>::empty());
    }
    let mut i: usize = 0;
    while i < lines.len()
        invariant
            i <= lines@.len(),
            load_spec(lseq.take(i as int)) is Ok,
            score.bpm_spec() == load_spec(lseq.take(i as int))->Ok_0.0,
            score.notes_seq() == load_spec(lseq.take(i as int))->Ok_0.1,
            score.wf(),
        decreases lines@.len() - i,
    {
        proof {
            assert(lseq.take(i + 1).drop_last() =~= lseq.take(i as int));
            assert(lseq.take(i + 1).last() == lseq[i as int]);
            assert(lseq[i as int] == lines@[i as int]@);
        }
        match parse_line(&lines[i]) {
            Err(e) => {
                proof {
                    lemma_load_err_persists(lseq, i + 1);
                    assert(lseq.take(lseq.len() as int) =~= lseq);
                }
                return Err(e);
            },
            Ok(ParsedLine::Blank) => {},
            Ok(ParsedLine::Bpm(b)) => {
                score.set_bpm(b);
            },
            Ok(ParsedLine::Notes(onset, toks)) => {
                let ghost ns0 = score.notes_seq();
                let ghost bpm0 = score.bpm_spec();
                proof {
                    assert(apply_tokens(ns0, onset, toks@.take(0)) is Some) by {
                        assert(toks@.take(0) =~= Seq::<NoteTok>::empty());
                    }
                }
                let mut k: usize = 0;
                while k < toks.len()
                    invariant
                        k <= toks@.len(),
                        apply_tokens(ns0, onset, toks@.take(k as int)) is Some,
                        score.notes_seq() == apply_tokens(ns0, onset, toks@.take(k as int))->Some_0,
                        score.bpm_spec() == bpm0,
                        score.wf(),
                    decreases toks@.len() - k,
                {
                    proof {
                        assert(toks@.take(k + 1).drop_last() =~= toks@.take(k as int));
                        assert(toks@.take(k + 1).last() == toks@[k as int]);
                    }
                    let tk = toks[k];
                    if tk.duration_b32 > u64::MAX - onset {
                        proof {
                            assert(apply_tokens(ns0, onset, toks@.take(k + 1)) is None);
                            lemma_apply_tokens_none_persists(ns0, onset, toks@, k + 1);
                            assert(toks@.take(toks@.len() as int) =~= toks@);
                            lemma_load_err_persists(lseq, i + 1);
                            assert(lseq.take(lseq.len() as int) =~= lseq);
                        }
                        return Err(SongParseError::NoteOutOfRange);
                    }
                    score.insert_or_remove(tk.pitch, onset, tk.duration_b32);
                    k = k + 1;
                }
                proof {
                    assert(toks@.take(toks@.len() as int) =~= toks@);
                }
            },
        }
        i = i + 1;
    }
    proof {
        assert(lseq.take(lseq.len() as int) =~= lseq);
    }
    Ok(score)
}

/// Once a token fails to decode, the whole list fails.
pub proof fn lemma_parse_tokens_none_persists(ts: Seq<Seq<u8>>, k: int)
    requires
        0 <= k <= ts.len(),
        parse_tokens_spec(ts.take(k)) is None,
    ensures
        parse_tokens_spec(ts) is None,
    decreases ts.len() - k,
{
    if k < ts.len() {
        assert(ts.take(k + 1).drop_last() =~= ts.take(k));
        lemma_parse_tokens_none_persists(ts, k + 1);
    } else {
        assert(ts.take(k) =~= ts);
    }
}

// ------------------------------------------------------------------
// Serializing a score back to its text form
// ------------------------------------------------------------------

/// The onsets of the notes of `s` that start strictly after `cur`, each
/// once, ascending.
pub open spec fn onsets_from(s: Seq<Note>, cur: Option<u64>) -> Seq<u64>
    decreases notes_after(s, cur).len(),
    via onsets_from_decreases
{
    if notes_after(s, cur).len() == 0 {
        Seq::empty()
    } else {
        let m = min_onset(notes_after(s, cur)) as u64;
        seq![m] + onsets_from(s, Some(m))
    }
}

/// The next remaining minimum is a real onset after `cur`, and cutting at it
/// strictly shrinks what remains.
proof fn lemma_onsets_from_step(s: Seq<Note>, cur: Option<u64>)
    requires
        notes_after(s, cur).len() > 0,
    ensures
        0 <= min_onset(notes_after(s, cur)) <= u64::MAX,
        cur matches Some(c) ==> c < min_onset(notes_after(s, cur)),
        notes_after(s, Some(min_onset(notes_after(s, cur)) as u64)).len() < notes_after(
            s,
            cur,
        ).len(),
{
    let f = notes_after(s, cur);
    lemma_min_onset_props(f);
    lemma_notes_after_elems(s, cur);
    let k = choose|k: int| 0 <= k < f.len() && (#[trigger] f[k]).onset_b32 == min_onset(f);
    assert(after_cur(f[k], cur));
    assert(s.contains(f[k]));
    let j = choose|j: int| 0 <= j < s.len() && s[j] == f[k];
    lemma_notes_after_strict(s, cur, min_onset(f) as u64, j);
}

#[via_fn]
proof fn onsets_from_decreases(s: Seq<Note>, cur: Option<u64>) {
    if notes_after(s, cur).len() > 0 {
        lemma_onsets_from_step(s, cur);
    }
}

/// The onsets at which notes of `s` start, each once, ascending.
pub open spec fn sorted_onsets(s: Seq<Note>) -> Seq<u64> {
    onsets_from(s, Option::None)
}

/// How the format writes one note: tone name, octave digit, `-`, duration.
pub open spec fn note_token_out(n: Note) -> Seq<u8> {
    tone_name_spec(n.pitch.tone) + seq![(48 + n.pitch.octave) as u8] + seq![45u8] + dec_spec(
        n.duration_b32 as int,
    )
}

/// The note tokens written out, separated by single spaces.
pub open spec fn join_tokens(ns: Seq<Note>) -> Seq<u8>
    decreases ns.len(),
{
    if ns.len() == 0 {
        Seq::empty()
    } else if ns.len() == 1 {
        note_token_out(ns[0])
    } else {
        join_tokens(ns.drop_last()) + seq![32u8] + note_token_out(ns.last())
    }
}

/// The line written for one onset: the onset, `: `, and the notes starting
/// there in storage order.
pub open spec fn onset_line_spec(s: Seq<Note>, o: u64) -> Seq<u8> {
    dec_spec(o as int) + seq![58u8, 32u8] + join_tokens(starting_at(s, o))
}

/// The header line: `BPM: ` and the tempo.
pub open spec fn bpm_line_spec(bpm: u16) -> Seq<u8> {
    bpm_header() + seq![32u8] + dec_spec(bpm as int)
}

/// The whole text written for a score: the header, then one line per onset
/// in ascending onset order.
pub open spec fn save_lines_spec(bpm: u16, s: Seq<Note>) -> Seq<Seq<u8>> {
    seq![bpm_line_spec(bpm)] + sorted_onsets(s).map_values(|o: u64| onset_line_spec(s, o))
}

/// The canonical decimal digits of `n`.
pub fn u64_digits(n: u64) -> (r: Vec<u8>)
    ensures
        r@ == dec_spec(n as int),
    decreases n,
{
    if n < 10 {
        let mut r: Vec<u8> = Vec::new();
        r.push(48 + n as u8);
        proof {
            assert(r@ =~= dec_spec(n as int));
        }
        r
    } else {
        let mut r = u64_digits(n / 10);
        r.push(48 + (n % 10) as u8);
        r
    }
}

/// The bytes of a tone's name.
pub fn tone_bytes(t: Tone) -> (r: Vec<u8>)
    ensures
        r@ == tone_name_spec(t),
{
    let mut r: Vec<u8> = Vec::new();
    match t {
        Tone::C => {
            r.push(67);
        },
        Tone::Cs => {
            r.push(67);
            r.push(115);
        },
        Tone::D => {
            r.push(68);
        },
        Tone::Ds => {
            r.push(68);
            r.push(115);
        },
        Tone::E => {
            r.push(69);
        },
        Tone::F => {
            r.push(70);
        },
        Tone::Fs => {
            r.push(70);
            r.push(115);
        },
        Tone::G => {
            r.push(71);
        },
        Tone::Gs => {
            r.push(71);
            r.push(115);
        },
        Tone::A => {
            r.push(65);
        },
        Tone::As => {
            r.push(65);
            r.push(115);
        },
        Tone::B => {
            r.push(66);
        },
    }
    proof {
        assert(r@ =~= tone_name_spec(t));
    }
    r
}

/// The bytes of one note token.
pub fn note_token_bytes(n: &Note) -> (r: Vec<u8>)
    requires
        n.pitch.wf(),
    ensures
        r@ == note_token_out(*n),
{
    let mut r = tone_bytes(n.pitch.tone);
    r.push(48 + n.pitch.octave as u8);
    r.push(45);
    let mut d = u64_digits(n.duration_b32);
    r.append(&mut d);
    proof {
        assert(r@ =~= note_token_out(*n));
    }
    r
}

/// Writes a score out as the lines of its text form: exactly the text that
/// `save_lines_spec` describes.
#[verifier::loop_isolation(false)]
pub fn score_to_lines(score: &Score) -> (r: Vec<Vec<u8>>)
    requires
        score.wf(),
    ensures
        views(r@) == save_lines_spec(score.bpm_spec(), score.notes_seq()),
{
    let ghost s = score.notes_seq();
    let ghost osq = sorted_onsets(s);

    let mut bpm_line: Vec<u8> = Vec::new();
    bpm_line.push(66);
    bpm_line.push(80);
    bpm_line.push(77);
    bpm_line.push(58);
    bpm_line.push(32);
    let mut bd = u64_digits(score.bpm() as u64);
    bpm_line.append(&mut bd);
    proof {
        assert(bpm_line@ =~= bpm_line_spec(score.bpm_spec()));
    }

    let mut out: Vec<Vec<u8>> = Vec::new();
    out.push(bpm_line);
    proof {
        lemma_notes_after_none(s);
        assert(osq.take(0) =~= Seq::<u64>::empty());
        assert(osq =~= osq.take(0) + onsets_from(s, Option::None));
        assert(views(out@) =~= seq![bpm_line_spec(score.bpm_spec())] + osq.take(0).map_values(
            |o: u64| onset_line_spec(s, o),
        ));
    }

    let mut cur: Option<u64> = None;
    let mut nxt = score.next_onset_after(cur);
    while nxt.is_some()
        invariant
            out@.len() >= 1,
            views(out@) == seq![bpm_line_spec(score.bpm_spec())] + osq.take(
                out@.len() - 1,
            ).map_values(|o: u64| onset_line_spec(s, o)),
            osq == osq.take(out@.len() - 1) + onsets_from(s, cur),
            nxt is None ==> notes_after(s, cur).len() == 0,
            nxt matches Some(m) ==> notes_after(s, cur).len() > 0 && m as int == min_onset(
                notes_after(s, cur),
            ),
        decreases notes_after(s, cur).len(),
    {
        let m = nxt.unwrap();
        proof {
            lemma_onsets_from_step(s, cur);
            assert(onsets_from(s, cur) == seq![m] + onsets_from(s, Some(m)));
            assert(osq[out@.len() - 1] == m);
            assert(osq.take(out@.len() as int) =~= osq.take(out@.len() - 1).push(m));
        }

        let notes_at = score.notes_starting_at_time(m);
        let mut line = u64_digits(m);
        line.push(58);
        line.push(32);
        let ghost base = line@;
        proof {
            assert(base =~= dec_spec(m as int) + seq![58u8, 32u8]);
            assert(starting_at(s, m).take(0) =~= Seq::<Note>::empty());
        }
        let mut j: usize = 0;
        while j < notes_at.len()
            invariant
                j <= notes_at@.len(),
                line@ == base + join_tokens(starting_at(s, m).take(j as int)),
            decreases notes_at@.len() - j,
        {
            let ghost st = starting_at(s, m);
            proof {
                assert(st.take(j + 1).drop_last() =~= st.take(j as int));
                assert(st.take(j + 1).last() == st[j as int]);
                assert(st.contains(st[j as int]));
                s.lemma_filter_contains_rev(|n: Note| n.onset_b32 == m, st[j as int]);
                let w = choose|w: int| 0 <= w < s.len() && s[w] == st[j as int];
                assert(note_wf(s[w]));
            }
            if j > 0 {
                line.push(32);
            }
            let mut tb = note_token_bytes(&notes_at[j]);
            line.append(&mut tb);
            proof {
                assert(line@ =~= base + join_tokens(starting_at(s, m).take(j + 1)));
            }
            j = j + 1;
        }
        proof {
            assert(starting_at(s, m).take(starting_at(s, m).len() as int) =~= starting_at(s, m));
            assert(line@ =~= onset_line_spec(s, m));
        }
        let ghost out0 = out@;
        out.push(line);
        proof {
            assert(views(out@) =~= views(out0).push(onset_line_spec(s, m)));
            assert(osq.take(out@.len() - 1).map_values(|o: u64| onset_line_spec(s, o)) =~= osq.take(
                out0.len() - 1,
            ).map_values(|o: u64| onset_line_spec(s, o)).push(onset_line_spec(s, m)));
            assert(views(out@) =~= seq![bpm_line_spec(score.bpm_spec())] + osq.take(
                out@.len() - 1,
            ).map_values(|o: u64| onset_line_spec(s, o)));
        }
        cur = Some(m);
        nxt = score.next_onset_after(cur);
    }
    proof {
        assert(onsets_from(s, cur).len() == 0);
        assert(osq =~= osq.take(out@.len() - 1));
        assert(osq.take(out@.len() - 1) =~= osq);
        assert(views(out@) =~= save_lines_spec(score.bpm_spec(), score.notes_seq()));
    }
    out
}

} // verus!
