//! Splitting a content file into its YAML frontmatter and Markdown body.
//!
//! The file must open with a line holding only `---`; the frontmatter ends at
//! the first later line holding only `---` (a `---` inside a YAML value does not
//! count). CRLF line endings are normalised to LF first.

use vstd::prelude::*;

use crate::text::{chars_of, occurs_at, occurs_at_exec, slice_chars, string_of};

verus! {

/// Why a file could not be split.
#[derive(Debug, Clone, Copy, PartialEq, Eq, Structural)]
pub enum FrontmatterError {
    /// The first line is not `---`.
    MissingOpening,
    /// No later line is `---`.
    MissingClosing,
}

/// The message reported for a split error.
pub open spec fn frontmatter_error_text(e: FrontmatterError) -> Seq<char> {
    match e {
        FrontmatterError::MissingOpening => "frontmatter 시작 구분자('---')가 파일 첫 줄에 없습니다"@,
        FrontmatterError::MissingClosing => "frontmatter 종료 구분자('---')를 찾을 수 없습니다"@,
    }
}

impl FrontmatterError {
    /// The message reported for this error.
    pub fn message(self) -> (m: &'static str)
        ensures
            m@ == frontmatter_error_text(self),
    {
        match self {
            FrontmatterError::MissingOpening => "frontmatter 시작 구분자('---')가 파일 첫 줄에 없습니다",
            FrontmatterError::MissingClosing => "frontmatter 종료 구분자('---')를 찾을 수 없습니다",
        }
    }
}

/// `s` with every CRLF pair replaced by LF, read from the left.
pub open spec fn crlf_to_lf(s: Seq<char>) -> Seq<char>
    decreases s.len(),
{
    if s.len() == 0 {
        Seq::empty()
    } else if s.len() >= 2 && s[0] == '\r' && s[1] == '\n' {
        seq!['\n'] + crlf_to_lf(s.skip(2))
    } else {
        seq![s[0]] + crlf_to_lf(s.skip(1))
    }
}

/// The opening line, `---` and a newline.
pub open spec fn opening() -> Seq<char> {
    seq!['-', '-', '-', '\n']
}

/// A newline followed by `---`.
pub open spec fn closing_marker() -> Seq<char> {
    seq!['\n', '-', '-', '-']
}

/// A closing line starts at newline `p` of `a`: `---` follows it and then a
/// newline or the end of the text.
pub open spec fn closes_at(a: Seq<char>, p: int) -> bool {
    occurs_at(a, closing_marker(), p) && (p + 4 == a.len() || a[p + 4] == '\n')
}

/// The first position from `i` on at which a closing line starts.
pub open spec fn first_closing(a: Seq<char>, i: int) -> Option<int>
    decreases a.len() - i,
{
    if i < 0 || i + 4 > a.len() {
        None
    } else if closes_at(a, i) {
        Some(i)
    } else {
        first_closing(a, i + 1)
    }
}

/// `s` without its leading newlines.
pub open spec fn strip_leading_newlines(s: Seq<char>) -> Seq<char>
    decreases s.len(),
{
    if s.len() > 0 && s[0] == '\n' {
        strip_leading_newlines(s.drop_first())
    } else {
        s
    }
}

/// The (frontmatter, body) split of a file, or why there is none.
pub open spec fn split_spec(raw: Seq<char>) -> Result<(Seq<char>, Seq<char>), FrontmatterError> {
    let n = crlf_to_lf(raw);
    if !(n.len() >= 4 && n.take(4) == opening()) {
        Err(FrontmatterError::MissingOpening)
    } else {
        let a = n.skip(4);
        match first_closing(a, 0) {
            None => Err(FrontmatterError::MissingClosing),
            Some(p) => {
                let after = p + 4;
                let body_start = if after < a.len() && a[after] == '\n' {
                    after + 1
                } else {
                    after
                };
                Ok((a.take(p), strip_leading_newlines(a.skip(body_start))))
            },
        }
    }
}

fn normalize_line_endings(s: &Vec<char>) -> (r: Vec<char>)
    ensures
        r@ == crlf_to_lf(s@),
{
    let mut r: Vec<char> = Vec::new();
    let mut i: usize = 0;
    assert(s@.skip(0) == s@);
    while i < s.len()
        invariant
            i <= s@.len(),
            r@ + crlf_to_lf(s@.skip(i as int)) == crlf_to_lf(s@),
        decreases s@.len() - i,
    {
        let ghost rest = s@.skip(i as int);
        let ghost before = r@;
        if i + 1 < s.len() && s[i] == '\r' && s[i + 1] == '\n' {
            proof {
                assert(rest[0] == '\r' && rest[1] == '\n');
                assert(rest.skip(2) == s@.skip(i + 2));
            }
            r.push('\n');
            i += 2;
            proof {
                assert(before + crlf_to_lf(rest) == r@ + crlf_to_lf(s@.skip(i as int)));
            }
        } else {
            proof {
                assert(rest[0] == s@[i as int]);
                assert(rest.skip(1) == s@.skip(i + 1));
            }
            r.push(s[i]);
            i += 1;
            proof {
                assert(before + crlf_to_lf(rest) == r@ + crlf_to_lf(s@.skip(i as int)));
            }
        }
    }
    assert(s@.skip(s@.len() as int) == Seq::<char>::empty());
    assert(r@ + Seq::<char>::empty() == r@);
    r
}

fn closes_at_exec(a: &Vec<char>, marker: &Vec<char>, p: usize) -> (r: bool)
    requires
        marker@ == closing_marker(),
    ensures
        r == closes_at(a@, p as int),
{
    if occurs_at_exec(a, marker, p) {
        assert(closing_marker().len() == 4);
        if a.len() - p == 4 {
            true
        } else {
            a[p + 4] == '\n'
        }
    } else {
        false
    }
}

/// Splits `---\n<YAML>\n---\n<body>` into the YAML text and the body (see
/// [`split_spec`]): line endings normalised, leading newlines of the body dropped.
pub fn split_frontmatter(raw: &str) -> (r: Result<(String, String), FrontmatterError>)
    ensures
        match r {
            Ok((yaml, body)) => split_spec(raw@) == Ok::<(Seq<char>, Seq<char>), FrontmatterError>(
                (yaml@, body@),
            ),
            Err(e) => split_spec(raw@) == Err::<(Seq<char>, Seq<char>), FrontmatterError>(e),
        },
{
    let n = normalize_line_endings(&chars_of(raw));
    let open: Vec<char> = vec!['-', '-', '-', '\n'];
    if !(n.len() >= 4 && occurs_at_exec(&n, &open, 0)) {
        proof {
            if n@.len() >= 4 && n@.take(4) == opening() {
                assert(n@.subrange(0, 4) == n@.take(4));
            }
        }
        return Err(FrontmatterError::MissingOpening);
    }
    assert(n@.subrange(0, 4) == n@.take(4));
    let a = slice_chars(&n, 4, n.len());
    assert(a@ == n@.skip(4));
    let marker: Vec<char> = vec!['\n', '-', '-', '-'];
    let mut p: usize = 0;
    while a.len() >= 4 && p <= a.len() - 4 && !closes_at_exec(&a, &marker, p)
        invariant
            p <= a@.len(),
            marker@ == closing_marker(),
            first_closing(a@, 0) == first_closing(a@, p as int),
        decreases a@.len() - p,
    {
        p += 1;
    }
    if a.len() < 4 || p > a.len() - 4 {
        return Err(FrontmatterError::MissingClosing);
    }
    let after = p + 4;
    let body_start = if after < a.len() && a[after] == '\n' {
        after + 1
    } else {
        after
    };
    let yaml = slice_chars(&a, 0, p);
    assert(yaml@ == a@.take(p as int));
    let mut b = body_start;
    while b < a.len() && a[b] == '\n'
        invariant
            body_start <= b <= a@.len(),
            strip_leading_newlines(a@.skip(body_start as int)) == strip_leading_newlines(a@.skip(b as int)),
        decreases a@.len() - b,
    {
        proof {
            assert(a@.skip(b as int)[0] == '\n');
            assert(a@.skip(b as int).drop_first() == a@.skip(b + 1));
        }
        b += 1;
    }
    proof {
        let rest = a@.skip(b as int);
        if rest.len() > 0 {
            assert(rest[0] == a@[b as int]);
        }
    }
    let body = slice_chars(&a, b, a.len());
    assert(body@ == a@.skip(b as int));
    Ok((string_of(&yaml), string_of(&body)))
}

} // verus!
