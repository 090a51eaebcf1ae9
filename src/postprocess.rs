//! Rewriting of the preprocessor's output around the precompiled-header
//! boundary, and the lexer for the `#` directives found in it.
use vstd::prelude::*;
use vstd::utf8::encode_utf8;

verus! {

pub const LF: u8 = 10;
pub const CR: u8 = 13;
pub const TAB: u8 = 9;
pub const SPACE: u8 = 32;
pub const QUOTE: u8 = 34;
pub const HASH: u8 = 35;
pub const SLASH: u8 = 47;
pub const BACKSLASH: u8 = 92;
pub const DIGIT_0: u8 = 48;
pub const DIGIT_9: u8 = 57;
pub const UPPER_A: u8 = 65;
pub const UPPER_Z: u8 = 90;
pub const LOWER_A: u8 = 97;
pub const LOWER_N: u8 = 110;
pub const LOWER_R: u8 = 114;
pub const LOWER_T: u8 = 116;
pub const LOWER_Z: u8 = 122;

/// The input ended inside a directive, or before the header boundary was found.
#[derive(Debug, Clone, Copy, PartialEq, Eq)]
pub enum FilterError {
    UnexpectedEnd,
}

pub open spec fn is_line_end(c: u8) -> bool {
    c == LF || c == CR
}

pub open spec fn is_blank(c: u8) -> bool {
    c == SPACE || c == TAB
}

pub open spec fn is_alnum(c: u8) -> bool {
    (LOWER_A <= c && c <= LOWER_Z) || (UPPER_A <= c && c <= UPPER_Z) || (DIGIT_0 <= c && c <= DIGIT_9)
}

/// The byte that an escape `\c` inside a quoted token stands for.
pub open spec fn unescaped(c: u8) -> u8 {
    if c == LOWER_N {
        LF
    } else if c == LOWER_R {
        CR
    } else if c == LOWER_T {
        TAB
    } else {
        c
    }
}

/// First index at or after `i` whose byte is not a space or a tab.
pub open spec fn blank_end(s: Seq<u8>, i: int) -> int
    decreases s.len() - i,
{
    if 0 <= i < s.len() && is_blank(s[i]) {
        blank_end(s, i + 1)
    } else {
        i
    }
}

/// First index at or after `i` whose byte is not a letter or a digit.
pub open spec fn alnum_end(s: Seq<u8>, i: int) -> int
    decreases s.len() - i,
{
    if 0 <= i < s.len() && is_alnum(s[i]) {
        alnum_end(s, i + 1)
    } else {
        i
    }
}

/// First index at or after `i` whose byte ends a line.
pub open spec fn eol_end(s: Seq<u8>, i: int) -> int
    decreases s.len() - i,
{
    if 0 <= i < s.len() && !is_line_end(s[i]) {
        eol_end(s, i + 1)
    } else {
        i
    }
}

/// The body of a quoted token that starts at `i` (just after the opening quote):
/// the index of the closing quote (`s.len()` or more when the input ends first),
/// and the bytes that the body stands for once escapes are resolved.
pub open spec fn quoted_scan(s: Seq<u8>, i: int) -> (int, Seq<u8>)
    decreases s.len() - i,
{
    if i < 0 || i >= s.len() {
        (s.len() as int, Seq::empty())
    } else if s[i] == QUOTE {
        (i, Seq::empty())
    } else if s[i] == BACKSLASH {
        if i + 1 >= s.len() {
            (s.len() as int, Seq::empty())
        } else {
            let (e, t) = quoted_scan(s, i + 2);
            (e, seq![unescaped(s[i + 1])] + t)
        }
    } else {
        let (e, t) = quoted_scan(s, i + 1);
        (e, seq![s[i]] + t)
    }
}

/// Skipping blanks from `i`, where `first` is a byte already read (if any):
/// the position reached and the first non-blank byte, or `None` for the
/// byte when the line ended. `None` overall when the input ends first.
pub open spec fn spaces_spec(s: Seq<u8>, i: int, first: Option<u8>) -> Option<(int, Option<u8>)> {
    match first {
        Some(c) => if is_line_end(c) {
            Some((i, None))
        } else if !is_blank(c) {
            Some((i, Some(c)))
        } else {
            spaces_from(s, i)
        },
        None => spaces_from(s, i),
    }
}

/// Skipping blanks from `i` with no byte read ahead.
pub open spec fn spaces_from(s: Seq<u8>, i: int) -> Option<(int, Option<u8>)> {
    let j = blank_end(s, i);
    if j >= s.len() {
        None
    } else if is_line_end(s[j]) {
        Some((j + 1, None))
    } else {
        Some((j + 1, Some(s[j])))
    }
}

/// Skipping the rest of the line from `i`: the position just after its end.
pub open spec fn line_end_spec(s: Seq<u8>, i: int, first: Option<u8>) -> Option<int> {
    if first is Some && is_line_end(first->0) {
        Some(i)
    } else {
        let j = eol_end(s, i);
        if j >= s.len() {
            None
        } else {
            Some(j + 1)
        }
    }
}

/// Reading one token from `i`, where `first` is a byte already read (if
/// any): the position reached, the byte read just after the token (`None`
/// when the line ended before any token), and the token. A quoted token
/// stands for its body with escapes resolved; any other token is a run of
/// letters and digits (or the single byte that starts it).
pub open spec fn token_spec(s: Seq<u8>, i: int, first: Option<u8>) -> Option<
    (int, Option<u8>, Seq<u8>),
> {
    match spaces_spec(s, i, first) {
        None => None,
        Some((p, None)) => Some((p, None, Seq::empty())),
        Some((p, Some(c))) => if c == QUOTE {
            let (e, t) = quoted_scan(s, p);
            if e + 1 >= s.len() {
                None
            } else {
                Some((e + 2, Some(s[e + 1]), t))
            }
        } else {
            let q = alnum_end(s, p);
            if q >= s.len() {
                None
            } else {
                Some((q + 1, Some(s[q]), seq![c] + s.subrange(p, q)))
            }
        },
    }
}

/// The directive names that the filter acts on.
pub open spec fn line_word() -> Seq<u8> {
    seq![108u8, 105u8, 110u8, 101u8]
}

pub open spec fn pragma_word() -> Seq<u8> {
    seq![112u8, 114u8, 97u8, 103u8, 109u8, 97u8]
}

pub open spec fn hdrstop_word() -> Seq<u8> {
    seq![104u8, 100u8, 114u8, 115u8, 116u8, 111u8, 112u8]
}

/// What a directive means to the filter.
pub enum DirectiveKind {
    /// `#line <n> "<file>"`, with the file name as written (escapes resolved).
    Line(Seq<u8>),
    /// `#pragma hdrstop`.
    HdrStop,
    /// Any other directive.
    Unknown,
}

/// The directive whose `#` stands just before `i`: the position just after
/// its line, and what it means.
pub open spec fn directive_spec(s: Seq<u8>, i: int) -> Option<(int, DirectiveKind)> {
    match token_spec(s, i, None) {
        None => None,
        Some((p1, h1, name)) => if name == line_word() {
            match token_spec(s, p1, h1) {
                None => None,
                Some((p2, h2, _number)) => match token_spec(s, p2, h2) {
                    None => None,
                    Some((p3, h3, file)) => match line_end_spec(s, p3, h3) {
                        None => None,
                        Some(e) => Some((e, DirectiveKind::Line(file))),
                    },
                },
            }
        } else if name == pragma_word() {
            match token_spec(s, p1, h1) {
                None => None,
                Some((p2, h2, word)) => match line_end_spec(s, p2, h2) {
                    None => None,
                    Some(e) => Some(
                        (
                            e,
                            if word == hdrstop_word() {
                                DirectiveKind::HdrStop
                            } else {
                                DirectiveKind::Unknown
                            },
                        ),
                    ),
                },
            }
        } else {
            match line_end_spec(s, p1, h1) {
                None => None,
                Some(e) => Some((e, DirectiveKind::Unknown)),
            }
        },
    }
}

/// A path with every backslash turned into a forward slash.
pub open spec fn slashes(p: Seq<u8>) -> Seq<u8> {
    p.map_values(|c: u8| if c == BACKSLASH { SLASH } else { c })
}

/// `marker` names `file`: the two are equal, or `marker` is a relative path
/// whose whole components end `file`.
pub open spec fn path_matches(file: Seq<u8>, marker: Seq<u8>) -> bool {
    file == marker || (0 < marker.len() < file.len() && marker[0] != SLASH && file[file.len()
        - marker.len() - 1] == SLASH && file.subrange(file.len() - marker.len(), file.len() as int)
        == marker)
}

/// The directive line that marks the end of the precompiled header:
/// `#pragma hdrstop` and a line feed.
pub open spec fn hdrstop_line() -> Seq<u8> {
    seq![HASH] + pragma_word() + seq![SPACE] + hdrstop_word() + seq![LF]
}

/// `out`, with `b` appended when headers are kept.
pub open spec fn emitted(out: Seq<u8>, keep: bool, b: Seq<u8>) -> Seq<u8> {
    if keep {
        out + b
    } else {
        out
    }
}

/// The filter run from position `i` of `s`, in the state given (at the start
/// of a line or not; the entry file, once a `#line` named it; whether the
/// marker header was entered), with `out` emitted so far. `None` when the
/// input ends before the header boundary. (A directive read from `i` always
/// ends after its `#` and within the input; the bound on `e` says so, so
/// that each step moves forward.)
pub open spec fn filter_from(
    s: Seq<u8>,
    marker: Option<Seq<u8>>,
    keep: bool,
    i: int,
    line_begin: bool,
    entry: Option<Seq<u8>>,
    found: bool,
    out: Seq<u8>,
) -> Option<Seq<u8>>
    decreases s.len() - i,
{
    if i < 0 || i >= s.len() {
        None
    } else {
        let c = s[i];
        if is_line_end(c) {
            filter_from(s, marker, keep, i + 1, true, entry, found, emitted(out, keep, seq![c]))
        } else if is_blank(c) {
            filter_from(s, marker, keep, i + 1, line_begin, entry, found, emitted(out, keep, seq![c]))
        } else if c == HASH && line_begin {
            match directive_spec(s, i + 1) {
                None => None,
                Some((e, kind)) => if e <= i || e > s.len() {
                    None
                } else {
                    let raw = s.subrange(i, e);
                    let rest = s.subrange(e, s.len() as int);
                    match kind {
                        DirectiveKind::Line(f) => {
                            let file = slashes(f);
                            match entry {
                                None => filter_from(
                                    s,
                                    marker,
                                    keep,
                                    e,
                                    true,
                                    Some(file),
                                    found,
                                    emitted(out, keep, raw),
                                ),
                                Some(first_file) => if found && first_file == file {
                                    Some(out + hdrstop_line() + raw + rest)
                                } else {
                                    let now_found = found || (marker is Some && path_matches(
                                        file,
                                        slashes(marker->0),
                                    ));
                                    filter_from(
                                        s,
                                        marker,
                                        keep,
                                        e,
                                        true,
                                        entry,
                                        now_found,
                                        emitted(out, keep, raw),
                                    )
                                },
                            }
                        },
                        DirectiveKind::HdrStop => Some(out + raw + rest),
                        DirectiveKind::Unknown => filter_from(
                            s,
                            marker,
                            keep,
                            e,
                            true,
                            entry,
                            found,
                            emitted(out, keep, raw),
                        ),
                    }
                },
            }
        } else {
            filter_from(s, marker, keep, i + 1, false, entry, found, emitted(out, keep, seq![c]))
        }
    }
}

/// The filter's output on `s` (`None` when the input ends before the header
/// boundary). `marker` holds the bytes of the marker header's name.
pub open spec fn filter_spec(s: Seq<u8>, marker: Option<Seq<u8>>, keep: bool) -> Option<Seq<u8>> {
    filter_from(s, marker, keep, 0, true, None, false, Seq::empty())
}

/// The bytes of an optional name.
pub open spec fn name_bytes(name: Option<String>) -> Option<Seq<u8>> {
    match name {
        Some(n) => Some(encode_utf8(n@)),
        None => None,
    }
}

pub open spec fn bytes_view(v: Option<Vec<u8>>) -> Option<Seq<u8>> {
    match v {
        Some(b) => Some(b@),
        None => None,
    }
}

fn is_eol_byte(c: u8) -> (r: bool)
    ensures
        r == is_line_end(c),
{
    c == LF || c == CR
}

fn is_blank_byte(c: u8) -> (r: bool)
    ensures
        r == is_blank(c),
{
    c == SPACE || c == TAB
}

/// Skips spaces and tabs, appending every byte read to `raw`.
fn skip_spaces(s: &[u8], pos: usize, first: Option<u8>, raw: &mut Vec<u8>) -> (r: Result<
    (usize, Option<u8>),
    FilterError,
>)
    requires
        pos <= s@.len(),
    ensures
        match r {
            Ok((p, h)) => {
                &&& spaces_spec(s@, pos as int, first) == Some((p as int, h))
                &&& pos <= p <= s@.len()
                &&& final(raw)@ == old(raw)@ + s@.subrange(pos as int, p as int)
            },
            Err(_) => spaces_spec(s@, pos as int, first) is None,
        },
{
    match first {
        Some(c) => {
        if is_eol_byte(c) {
            assert(s@.subrange(pos as int, pos as int) =~= Seq::<u8>::empty());
            assert(raw@ =~= raw@ + s@.subrange(pos as int, pos as int));
            return Ok((pos, None));
        }
        if !is_blank_byte(c) {
            assert(raw@ =~= raw@ + s@.subrange(pos as int, pos as int));
            return Ok((pos, first));
        }
        },
        None => {},
    }
    let mut i: usize = pos;
    while i < s.len()
        invariant
            pos <= i <= s@.len(),
            spaces_spec(s@, pos as int, first) == spaces_from(s@, pos as int),
            blank_end(s@, pos as int) == blank_end(s@, i as int),
            raw@ == old(raw)@ + s@.subrange(pos as int, i as int),
        decreases s@.len() - i,
    {
        let c = s[i];
        raw.push(c);
        assert(s@.subrange(pos as int, i + 1) =~= s@.subrange(pos as int, i as int).push(c));
        assert(blank_end(s@, i as int) == if is_blank(c) {
            blank_end(s@, i + 1)
        } else {
            i as int
        });
        i = i + 1;
        if is_eol_byte(c) {
            return Ok((i, None));
        }
        if !is_blank_byte(c) {
            return Ok((i, Some(c)));
        }
    }
    Err(FilterError::UnexpectedEnd)
}

/// Skips to the end of the line, appending every byte read to `raw`.
fn skip_line(s: &[u8], pos: usize, first: Option<u8>, raw: &mut Vec<u8>) -> (r: Result<
    usize,
    FilterError,
>)
    requires
        pos <= s@.len(),
    ensures
        match r {
            Ok(p) => {
                &&& line_end_spec(s@, pos as int, first) == Some(p as int)
                &&& pos <= p <= s@.len()
                &&& final(raw)@ == old(raw)@ + s@.subrange(pos as int, p as int)
            },
            Err(_) => line_end_spec(s@, pos as int, first) is None,
        },
{
    match first {
        Some(c) => {
            if is_eol_byte(c) {
                assert(raw@ =~= raw@ + s@.subrange(pos as int, pos as int));
                return Ok(pos);
            }
        },
        None => {},
    }
    let mut i: usize = pos;
    while i < s.len()
        invariant
            pos <= i <= s@.len(),
            line_end_spec(s@, pos as int, first) == line_end_spec(s@, pos as int, None),
            eol_end(s@, pos as int) == eol_end(s@, i as int),
            raw@ == old(raw)@ + s@.subrange(pos as int, i as int),
        decreases s@.len() - i,
    {
        let c = s[i];
        raw.push(c);
        assert(s@.subrange(pos as int, i + 1) =~= s@.subrange(pos as int, i as int).push(c));
        assert(eol_end(s@, i as int) == if is_line_end(c) {
            i as int
        } else {
            eol_end(s@, i + 1)
        });
        i = i + 1;
        if is_eol_byte(c) {
            return Ok(i);
        }
    }
    Err(FilterError::UnexpectedEnd)
}

fn is_alnum_byte(c: u8) -> (r: bool)
    ensures
        r == is_alnum(c),
{
    (LOWER_A <= c && c <= LOWER_Z) || (UPPER_A <= c && c <= UPPER_Z) || (DIGIT_0 <= c && c <= DIGIT_9)
}

fn unescape_byte(c: u8) -> (r: u8)
    ensures
        r == unescaped(c),
{
    if c == LOWER_N {
        LF
    } else if c == LOWER_R {
        CR
    } else if c == LOWER_T {
        TAB
    } else {
        c
    }
}

/// Reads one token, appending every byte read to `raw`.
fn read_token(s: &[u8], pos: usize, first: Option<u8>, raw: &mut Vec<u8>) -> (r: Result<
    (usize, Option<u8>, Vec<u8>),
    FilterError,
>)
    requires
        pos <= s@.len(),
    ensures
        match r {
            Ok((p, h, tok)) => {
                &&& token_spec(s@, pos as int, first) == Some((p as int, h, tok@))
                &&& pos <= p <= s@.len()
                &&& final(raw)@ == old(raw)@ + s@.subrange(pos as int, p as int)
            },
            Err(_) => token_spec(s@, pos as int, first) is None,
        },
{
    let (p, h) = skip_spaces(s, pos, first, raw)?;
    let c = match h {
        None => {
            return Ok((p, None, Vec::new()));
        },
        Some(c) => c,
    };
    let mut token: Vec<u8> = Vec::new();
    let mut i: usize = p;
    if c == QUOTE {
        while i < s.len()
            invariant
                pos <= p <= i <= s@.len(),
                spaces_spec(s@, pos as int, first) == Some((p as int, Some(c))),
                c == QUOTE,
                quoted_scan(s@, p as int) == (quoted_scan(s@, i as int).0, token@ + quoted_scan(
                    s@,
                    i as int,
                ).1),
                raw@ == old(raw)@ + s@.subrange(pos as int, i as int),
            decreases s@.len() - i,
        {
            let b = s[i];
            raw.push(b);
            assert(s@.subrange(pos as int, i + 1) =~= s@.subrange(pos as int, i as int).push(b));
            if b == BACKSLASH {
                if i + 1 >= s.len() {
                    return Err(FilterError::UnexpectedEnd);
                }
                let d = s[i + 1];
                raw.push(d);
                assert(s@.subrange(pos as int, i + 2) =~= s@.subrange(pos as int, i + 1).push(d));
                let ghost t0 = token@;
                token.push(unescape_byte(d));
                proof {
                    let (e2, t2) = quoted_scan(s@, i + 2);
                    assert(quoted_scan(s@, i as int) == (e2, seq![unescaped(d)] + t2));
                    assert(token@ + t2 =~= t0 + (seq![unescaped(d)] + t2));
                }
                i = i + 2;
            } else if b == QUOTE {
                if i + 1 >= s.len() {
                    return Err(FilterError::UnexpectedEnd);
                }
                let n = s[i + 1];
                raw.push(n);
                assert(s@.subrange(pos as int, i + 2) =~= s@.subrange(pos as int, i + 1).push(n));
                assert(token@ + Seq::<u8>::empty() =~= token@);
                return Ok((i + 2, Some(n), token));
            } else {
                let ghost t0 = token@;
                token.push(b);
                proof {
                    let (e2, t2) = quoted_scan(s@, i + 1);
                    assert(quoted_scan(s@, i as int) == (e2, seq![b] + t2));
                    assert(token@ + t2 =~= t0 + (seq![b] + t2));
                }
                i = i + 1;
            }
        }
        Err(FilterError::UnexpectedEnd)
    } else {
        token.push(c);
        while i < s.len()
            invariant
                pos <= p <= i <= s@.len(),
                spaces_spec(s@, pos as int, first) == Some((p as int, Some(c))),
                c != QUOTE,
                alnum_end(s@, p as int) == alnum_end(s@, i as int),
                token@ == seq![c] + s@.subrange(p as int, i as int),
                raw@ == old(raw)@ + s@.subrange(pos as int, i as int),
            decreases s@.len() - i,
        {
            let b = s[i];
            raw.push(b);
            assert(s@.subrange(pos as int, i + 1) =~= s@.subrange(pos as int, i as int).push(b));
            assert(alnum_end(s@, i as int) == if is_alnum(b) {
                alnum_end(s@, i + 1)
            } else {
                i as int
            });
            if !is_alnum_byte(b) {
                return Ok((i + 1, Some(b), token));
            }
            token.push(b);
            assert(seq![c] + s@.subrange(p as int, i + 1) =~= (seq![c] + s@.subrange(
                p as int,
                i as int,
            )).push(b));
            i = i + 1;
        }
        Err(FilterError::UnexpectedEnd)
    }
}

/// A directive with the exact bytes it was read from (`raw`, from the `#`
/// through the end of its line).
enum Directive {
    Line(Vec<u8>, Vec<u8>),
    HdrStop(Vec<u8>),
    Unknown(Vec<u8>),
}

impl Directive {
    spec fn raw(&self) -> Seq<u8> {
        match self {
            Directive::Line(raw, _) => raw@,
            Directive::HdrStop(raw) => raw@,
            Directive::Unknown(raw) => raw@,
        }
    }

    spec fn kind(&self) -> DirectiveKind {
        match self {
            Directive::Line(_, file) => DirectiveKind::Line(file@),
            Directive::HdrStop(_) => DirectiveKind::HdrStop,
            Directive::Unknown(_) => DirectiveKind::Unknown,
        }
    }
}

fn is_line_word(t: &Vec<u8>) -> (r: bool)
    ensures
        r == (t@ == line_word()),
{
    let r = t.len() == 4 && t[0] == 108 && t[1] == 105 && t[2] == 110 && t[3] == 101;
    if r {
        assert(t@ =~= line_word());
    }
    r
}

fn is_pragma_word(t: &Vec<u8>) -> (r: bool)
    ensures
        r == (t@ == pragma_word()),
{
    let r = t.len() == 6 && t[0] == 112 && t[1] == 114 && t[2] == 97 && t[3] == 103 && t[4]
        == 109 && t[5] == 97;
    if r {
        assert(t@ =~= pragma_word());
    }
    r
}

fn is_hdrstop_word(t: &Vec<u8>) -> (r: bool)
    ensures
        r == (t@ == hdrstop_word()),
{
    let r = t.len() == 7 && t[0] == 104 && t[1] == 100 && t[2] == 114 && t[3] == 115 && t[4]
        == 116 && t[5] == 111 && t[6] == 112;
    if r {
        assert(t@ =~= hdrstop_word());
    }
    r
}

/// Reads the directive whose `#` stands just before `pos`.
fn read_directive(s: &[u8], pos: usize) -> (r: Result<(usize, Directive), FilterError>)
    requires
        1 <= pos <= s@.len(),
        s@[pos - 1] == HASH,
    ensures
        match r {
            Ok((e, d)) => {
                &&& directive_spec(s@, pos as int) == Some((e as int, d.kind()))
                &&& pos <= e <= s@.len()
                &&& d.raw() == s@.subrange(pos - 1, e as int)
            },
            Err(_) => directive_spec(s@, pos as int) is None,
        },
{
    let mut raw: Vec<u8> = Vec::new();
    raw.push(HASH);
    assert(raw@ =~= s@.subrange(pos - 1, pos as int));
    let (p1, h1, name) = read_token(s, pos, None, &mut raw)?;
    assert(raw@ =~= s@.subrange(pos - 1, p1 as int));
    if is_line_word(&name) {
        let (p2, h2, _number) = read_token(s, p1, h1, &mut raw)?;
        let (p3, h3, file) = read_token(s, p2, h2, &mut raw)?;
        let e = skip_line(s, p3, h3, &mut raw)?;
        assert(raw@ =~= s@.subrange(pos - 1, e as int));
        Ok((e, Directive::Line(raw, file)))
    } else if is_pragma_word(&name) {
        let (p2, h2, word) = read_token(s, p1, h1, &mut raw)?;
        let e = skip_line(s, p2, h2, &mut raw)?;
        assert(raw@ =~= s@.subrange(pos - 1, e as int));
        if is_hdrstop_word(&word) {
            Ok((e, Directive::HdrStop(raw)))
        } else {
            Ok((e, Directive::Unknown(raw)))
        }
    } else {
        let e = skip_line(s, p1, h1, &mut raw)?;
        assert(raw@ =~= s@.subrange(pos - 1, e as int));
        Ok((e, Directive::Unknown(raw)))
    }
}

/// Appends `s[from..to]` to `out`.
fn append_range(out: &mut Vec<u8>, s: &[u8], from: usize, to: usize)
    requires
        from <= to <= s@.len(),
    ensures
        final(out)@ == old(out)@ + s@.subrange(from as int, to as int),
{
    let mut i: usize = from;
    while i < to
        invariant
            from <= i <= to <= s@.len(),
            out@ == old(out)@ + s@.subrange(from as int, i as int),
        decreases to - i,
    {
        out.push(s[i]);
        assert(s@.subrange(from as int, i + 1) =~= s@.subrange(from as int, i as int).push(s@[i as int]));
        i = i + 1;
    }
}

/// Appends all of `b` to `out`.
fn append_all(out: &mut Vec<u8>, b: &[u8])
    ensures
        final(out)@ == old(out)@ + b@,
{
    append_range(out, b, 0, b.len());
    assert(b@.subrange(0, b@.len() as int) =~= b@);
}

/// Whether two byte strings are equal.
fn same_bytes(a: &[u8], b: &[u8]) -> (r: bool)
    ensures
        r == (a@ == b@),
{
    if a.len() != b.len() {
        return false;
    }
    let mut i: usize = 0;
    while i < a.len()
        invariant
            a@.len() == b@.len(),
            i <= a@.len(),
            forall|k: int| 0 <= k < i ==> a@[k] == b@[k],
        decreases a@.len() - i,
    {
        if a[i] != b[i] {
            return false;
        }
        i = i + 1;
    }
    assert(a@ =~= b@);
    true
}

/// Turns every backslash of a path into a forward slash.
fn normalise_slashes(p: &[u8]) -> (r: Vec<u8>)
    ensures
        r@ == slashes(p@),
{
    let mut r: Vec<u8> = Vec::new();
    let mut i: usize = 0;
    while i < p.len()
        invariant
            i <= p@.len(),
            r@ == slashes(p@.subrange(0, i as int)),
        decreases p@.len() - i,
    {
        let c = p[i];
        r.push(if c == BACKSLASH { SLASH } else { c });
        assert(slashes(p@.subrange(0, i + 1)) =~= slashes(p@.subrange(0, i as int)).push(
            if c == BACKSLASH { SLASH } else { c },
        ));
        i = i + 1;
    }
    assert(p@.subrange(0, p@.len() as int) =~= p@);
    r
}

/// Whether `marker` names `file`, as `path_matches` states.
fn ends_with_path(file: &[u8], marker: &[u8]) -> (r: bool)
    ensures
        r == path_matches(file@, marker@),
{
    if same_bytes(file, marker) {
        return true;
    }
    let n = file.len();
    let m = marker.len();
    if m == 0 || m >= n || marker[0] == SLASH || file[n - m - 1] != SLASH {
        return false;
    }
    let mut i: usize = 0;
    while i < m
        invariant
            0 < m < n,
            n == file@.len(),
            m == marker@.len(),
            i <= m,
            forall|k: int| 0 <= k < i ==> file@[n - m + k] == marker@[k],
        decreases m - i,
    {
        if file[n - m + i] != marker[i] {
            assert(file@.subrange(n - m, n as int)[i as int] != marker@[i as int]);
            return false;
        }
        i = i + 1;
    }
    assert(file@.subrange(n - m, n as int) =~= marker@);
    true
}

/// Appends `#pragma hdrstop` and a line feed to `out`.
fn push_hdrstop_line(out: &mut Vec<u8>)
    ensures
        final(out)@ == old(out)@ + hdrstop_line(),
{
    let line: [u8; 16] = [35, 112, 114, 97, 103, 109, 97, 32, 104, 100, 114, 115, 116, 111, 112, 10];
    append_all(out, &line);
    assert(line@ =~= hdrstop_line());
}

/// Rewrites the preprocessor's output `input` around the precompiled-header
/// boundary.
///
/// Bytes are copied through (all of them when `keep_headers`, none before
/// the boundary otherwise) until the boundary: an explicit
/// `#pragma hdrstop`, which is copied, or a `#line` that returns to the
/// entry file after the `marker` header was entered, before which
/// `#pragma hdrstop` is inserted. Everything after the boundary is copied
/// verbatim. Input that ends before the boundary is an error.
pub fn filter_preprocessed(input: &[u8], marker: &Option<String>, keep_headers: bool) -> (r: Result<
    Vec<u8>,
    FilterError,
>)
    ensures
        match r {
            Ok(out) => filter_spec(input@, name_bytes(*marker), keep_headers) == Some(out@),
            Err(_) => filter_spec(input@, name_bytes(*marker), keep_headers) is None,
        },
{
    let ghost s = input@;
    let ghost mk = name_bytes(*marker);
    let marker_path: Option<Vec<u8>> = match marker {
        Some(m) => Some(normalise_slashes(m.as_str().as_bytes())),
        None => None,
    };
    let mut out: Vec<u8> = Vec::new();
    let mut line_begin = true;
    let mut entry: Option<Vec<u8>> = None;
    let mut found = false;
    let mut i: usize = 0;
    while i < input.len()
        invariant
            i <= s.len(),
            s == input@,
            mk == name_bytes(*marker),
            mk is Some <==> marker_path is Some,
            mk is Some ==> marker_path->0@ == slashes(mk->0),
            filter_from(s, mk, keep_headers, i as int, line_begin, bytes_view(entry), found, out@)
                == filter_spec(s, mk, keep_headers),
        decreases s.len() - i,
    {
        let c = input[i];
        if is_eol_byte(c) {
            let ghost o0 = out@;
            if keep_headers {
                out.push(c);
            }
            assert(out@ =~= emitted(o0, keep_headers, seq![c]));
            line_begin = true;
            i = i + 1;
        } else if is_blank_byte(c) {
            let ghost o0 = out@;
            if keep_headers {
                out.push(c);
            }
            assert(out@ =~= emitted(o0, keep_headers, seq![c]));
            i = i + 1;
        } else if c == HASH && line_begin {
            let (e, d) = read_directive(input, i + 1)?;
            match d {
                Directive::Line(raw_bytes, file_name) => {
                    let file = normalise_slashes(file_name.as_slice());
                    match entry {
                        None => {
                            if keep_headers {
                                append_all(&mut out, raw_bytes.as_slice());
                            }
                            entry = Some(file);
                        },
                        Some(first_file) => {
                            if found && same_bytes(first_file.as_slice(), file.as_slice()) {
                                push_hdrstop_line(&mut out);
                                append_all(&mut out, raw_bytes.as_slice());
                                append_range(&mut out, input, e, input.len());
                                return Ok(out);
                            }
                            match &marker_path {
                                Some(m) => {
                                    if ends_with_path(file.as_slice(), m.as_slice()) {
                                        found = true;
                                    }
                                },
                                None => {},
                            }
                            if keep_headers {
                                append_all(&mut out, raw_bytes.as_slice());
                            }
                            entry = Some(first_file);
                        },
                    }
                },
                Directive::HdrStop(raw_bytes) => {
                    append_all(&mut out, raw_bytes.as_slice());
                    append_range(&mut out, input, e, input.len());
                    return Ok(out);
                },
                Directive::Unknown(raw_bytes) => {
                    if keep_headers {
                        append_all(&mut out, raw_bytes.as_slice());
                    }
                },
            }
            i = e;
        } else {
            let ghost o0 = out@;
            if keep_headers {
                out.push(c);
            }
            assert(out@ =~= emitted(o0, keep_headers, seq![c]));
            line_begin = false;
            i = i + 1;
        }
    }
    Err(FilterError::UnexpectedEnd)
}

/// The shape of the filter's output `out` on input `s`: with headers kept, the
/// input itself, or the input with one `#pragma hdrstop` line inserted at some
/// point `k`; with headers dropped, a suffix of the input, or one preceded by
/// that line.
pub open spec fn copies_input(s: Seq<u8>, keep: bool, out: Seq<u8>) -> bool {
    exists|k: int|
        0 <= k <= s.len() && if keep {
            out == s || out == s.take(k) + hdrstop_line() + s.skip(k)
        } else {
            out == s.skip(k) || out == hdrstop_line() + s.skip(k)
        }
}

proof fn lemma_filter_from_copies(
    s: Seq<u8>,
    marker: Option<Seq<u8>>,
    keep: bool,
    i: int,
    line_begin: bool,
    entry: Option<Seq<u8>>,
    found: bool,
    out: Seq<u8>,
)
    requires
        0 <= i <= s.len(),
        keep ==> out == s.take(i),
        !keep ==> out == Seq::<u8>::empty(),
    ensures
        filter_from(s, marker, keep, i, line_begin, entry, found, out) matches Some(o)
            ==> copies_input(s, keep, o),
    decreases s.len() - i,
{
    if i < s.len() {
        let c = s[i];
        let next = emitted(out, keep, seq![c]);
        assert(keep ==> next =~= s.take(i + 1));
        if is_line_end(c) {
            lemma_filter_from_copies(s, marker, keep, i + 1, true, entry, found, next);
        } else if is_blank(c) {
            lemma_filter_from_copies(s, marker, keep, i + 1, line_begin, entry, found, next);
        } else if c == HASH && line_begin {
            if let Some((e, kind)) = directive_spec(s, i + 1) {
                if i < e <= s.len() {
                    let raw = s.subrange(i, e);
                    let rest = s.subrange(e, s.len() as int);
                    let after = emitted(out, keep, raw);
                    assert(keep ==> after =~= s.take(e));
                    assert(raw + rest =~= s.skip(i));
                    assert(out + raw + rest =~= out + s.skip(i));
                    assert(out + hdrstop_line() + raw + rest =~= out + hdrstop_line() + s.skip(i));
                    assert(s.take(i) + s.skip(i) =~= s);
                    assert(Seq::<u8>::empty() + hdrstop_line() =~= hdrstop_line());
                    assert(Seq::<u8>::empty() + s.skip(i) =~= s.skip(i));
                    match kind {
                        DirectiveKind::Line(f) => {
                            let file = slashes(f);
                            match entry {
                                None => {
                                    lemma_filter_from_copies(
                                        s,
                                        marker,
                                        keep,
                                        e,
                                        true,
                                        Some(file),
                                        found,
                                        after,
                                    );
                                },
                                Some(first_file) => {
                                    if found && first_file == file {
                                        assert(0 <= i <= s.len());
                                    } else {
                                        let now_found = found || (marker is Some && path_matches(
                                            file,
                                            slashes(marker->0),
                                        ));
                                        lemma_filter_from_copies(
                                            s,
                                            marker,
                                            keep,
                                            e,
                                            true,
                                            entry,
                                            now_found,
                                            after,
                                        );
                                    }
                                },
                            }
                        },
                        DirectiveKind::HdrStop => {
                            assert(0 <= i <= s.len());
                        },
                        DirectiveKind::Unknown => {
                            lemma_filter_from_copies(s, marker, keep, e, true, entry, found, after);
                        },
                    }
                }
            }
        } else {
            lemma_filter_from_copies(s, marker, keep, i + 1, false, entry, found, next);
        }
    }
}

/// The filter never rewrites a byte: with headers kept, its output is the
/// input with at most one `#pragma hdrstop` line inserted; with headers
/// dropped, it is a suffix of the input, possibly preceded by that line.
/// Either way what follows the boundary is the input's remainder verbatim.
pub proof fn lemma_filter_copies_input(s: Seq<u8>, marker: Option<Seq<u8>>, keep: bool)
    ensures
        filter_spec(s, marker, keep) matches Some(out) ==> copies_input(s, keep, out),
{
    assert(s.take(0) =~= Seq::<u8>::empty());
    lemma_filter_from_copies(s, marker, keep, 0, true, None, false, Seq::empty());
}

} // verus!
