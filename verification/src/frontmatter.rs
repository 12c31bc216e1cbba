use vstd::prelude::*;
use vstd::string::StrSliceExecFns;
use crate::errors::FrontmatterError;
use crate::store::str_eq;

verus! {

/// The delimiter line that opens and closes a frontmatter header.
pub open spec fn delim() -> Seq<char> {
    seq!['-', '-', '-', '\n']
}

/// Whether the text begins with the opening delimiter line.
pub open spec fn has_opening(s: Seq<char>) -> bool {
    s.len() >= 4 && s.take(4) == delim()
}

/// Whether the closing delimiter line stands at position `i` of the text
/// that follows the opening delimiter.
pub open spec fn close_at(rest: Seq<char>, i: int) -> bool {
    0 <= i && i + 4 <= rest.len() && rest.subrange(i, i + 4) == delim()
}

/// The first closing-delimiter position at or after `i`, if any.
pub open spec fn find_close(rest: Seq<char>, i: int) -> Option<int>
    decreases rest.len() - i,
{
    if i < 0 || i + 4 > rest.len() {
        None
    } else if close_at(rest, i) {
        Some(i)
    } else {
        find_close(rest, i + 1)
    }
}

/// What splitting a post text into header and body yields: the text after
/// the opening delimiter, cut at the first closing delimiter; everything
/// after that closing delimiter is the body, verbatim.
pub open spec fn spec_split(s: Seq<char>) -> Result<(Seq<char>, Seq<char>), FrontmatterError> {
    if !has_opening(s) {
        Err(FrontmatterError::MissingOpeningDelimiter)
    } else {
        let rest = s.skip(4);
        match find_close(rest, 0) {
            None => Err(FrontmatterError::MissingClosingDelimiter),
            Some(i) => Ok((rest.take(i), rest.skip(i + 4))),
        }
    }
}

/// Splits a post's raw text into its frontmatter header and its body.
pub fn split_frontmatter(text: &str) -> (r: Result<(String, String), FrontmatterError>)
    ensures
        match r {
            Ok(p) => spec_split(text@) == Ok::<_, FrontmatterError>((p.0@, p.1@)),
            Err(FrontmatterError::MissingOpeningDelimiter) => !has_opening(text@),
            Err(FrontmatterError::MissingClosingDelimiter) => has_opening(text@) && find_close(
                text@.skip(4),
                0,
            ) is None,
            Err(_) => false,
        },
{
    let n = text.unicode_len();
    if n < 4 || text.get_char(0) != '-' || text.get_char(1) != '-' || text.get_char(2) != '-'
        || text.get_char(3) != '\n' {
        proof {
            if has_opening(text@) {
                assert(text@.take(4)[0] == text@[0]);
                assert(text@.take(4)[1] == text@[1]);
                assert(text@.take(4)[2] == text@[2]);
                assert(text@.take(4)[3] == text@[3]);
            }
        }
        return Err(FrontmatterError::MissingOpeningDelimiter);
    }
    proof {
        assert(has_opening(text@)) by {
            assert(text@.take(4) =~= delim());
        }
    }
    let ghost rest = text@.skip(4);
    let rl = n - 4;
    let mut i: usize = 0;
    while i + 4 <= rl
        invariant
            rest == text@.skip(4),
            has_opening(text@),
            n == text@.len(),
            n >= 4,
            rl == n - 4,
            rl == rest.len(),
            i <= rl,
            find_close(rest, 0) == find_close(rest, i as int),
        decreases rl - i,
    {
        let c0 = text.get_char(4 + i);
        let c1 = text.get_char(4 + i + 1);
        let c2 = text.get_char(4 + i + 2);
        let c3 = text.get_char(4 + i + 3);
        proof {
            assert(rest[i as int] == text@[4 + i as int]);
            assert(rest[i as int + 1] == text@[4 + i as int + 1]);
            assert(rest[i as int + 2] == text@[4 + i as int + 2]);
            assert(rest[i as int + 3] == text@[4 + i as int + 3]);
        }
        if c0 == '-' && c1 == '-' && c2 == '-' && c3 == '\n' {
            proof {
                assert(close_at(rest, i as int)) by {
                    assert(rest.subrange(i as int, i as int + 4) =~= delim());
                }
            }
            let header = text.substring_char(4, 4 + i).to_owned();
            let body = text.substring_char(4 + i + 4, n).to_owned();
            proof {
                assert(header@ =~= rest.take(i as int));
                assert(body@ =~= rest.skip(i as int + 4));
            }
            return Ok((header, body));
        }
        proof {
            assert(!close_at(rest, i as int)) by {
                if close_at(rest, i as int) {
                    assert(rest.subrange(i as int, i as int + 4)[0] == rest[i as int]);
                    assert(rest.subrange(i as int, i as int + 4)[1] == rest[i as int + 1]);
                    assert(rest.subrange(i as int, i as int + 4)[2] == rest[i as int + 2]);
                    assert(rest.subrange(i as int, i as int + 4)[3] == rest[i as int + 3]);
                }
            }
        }
        i += 1;
    }
    proof {
        assert(find_close(rest, i as int) is None);
    }
    Err(FrontmatterError::MissingClosingDelimiter)
}

/// The contents of a YAML mapping, in key order, if the text is such a
/// mapping; a value that is no string is kept as `None`. The serde_norway
/// parser decides.
pub uninterp spec fn yaml_string_pairs(s: Seq<char>) -> Option<
    Seq<(Seq<char>, Option<Seq<char>>)>,
>;

/// Relies on serde_norway::from_str reading a YAML mapping with string
/// keys into a BTreeMap: acceptance and contents depend on the input text
/// alone, iterating the map visits keys in sorted order, and Value::as_str
/// tells string values apart from every other value.
#[verifier::external_body]
fn parse_yaml_string_pairs(s: &str) -> (r: Result<Vec<(String, Option<String>)>, String>)
    ensures
        match r {
            Ok(pairs) => yaml_string_pairs(s@) == Some(pairs.deep_view()),
            Err(_) => yaml_string_pairs(s@) is None,
        },
{
    match serde_norway::from_str::<std::collections::BTreeMap<String, serde_norway::Value>>(s) {
        Ok(m) => Ok(
            m.into_iter().map(|(k, v)| (k, v.as_str().map(str::to_owned))).collect(),
        ),
        Err(e) => Err(format!("{e}")),
    }
}

/// The value under the first occurrence of the key, if any.
pub open spec fn pairs_lookup(
    ps: Seq<(Seq<char>, Option<Seq<char>>)>,
    key: Seq<char>,
) -> Option<Option<Seq<char>>>
    decreases ps.len(),
{
    if ps.len() == 0 {
        None
    } else if ps[0].0 == key {
        Some(ps[0].1)
    } else {
        pairs_lookup(ps.skip(1), key)
    }
}

fn lookup_value(pairs: &Vec<(String, Option<String>)>, key: &str) -> (r: Option<Option<String>>)
    ensures
        match r {
            Some(v) => pairs_lookup(pairs.deep_view(), key@) == Some(v.deep_view()),
            None => pairs_lookup(pairs.deep_view(), key@) is None,
        },
{
    let ghost dv = pairs.deep_view();
    proof {
        assert(dv.skip(0) =~= dv);
    }
    let mut i: usize = 0;
    while i < pairs.len()
        invariant
            dv == pairs.deep_view(),
            dv.len() == pairs@.len(),
            i <= dv.len(),
            pairs_lookup(dv, key@) == pairs_lookup(dv.skip(i as int), key@),
        decreases dv.len() - i,
    {
        proof {
            assert(dv[i as int] == (pairs@[i as int].0@, pairs@[i as int].1.deep_view()));
            assert(dv.skip(i as int)[0] == dv[i as int]);
            assert(dv.skip(i as int).skip(1) =~= dv.skip(i as int + 1));
        }
        if str_eq(pairs[i].0.as_str(), key) {
            let v: Option<String> = match &pairs[i].1 {
                Some(t) => Some(t.clone()),
                None => None,
            };
            proof {
                assert(v.deep_view() == pairs@[i as int].1.deep_view());
            }
            return Some(v);
        }
        i += 1;
    }
    proof {
        assert(dv.skip(i as int).len() == 0);
    }
    None
}

/// One post's frontmatter: both fields are mandatory.
pub struct Frontmatter {
    pub title: String,
    pub date: String,
}

pub open spec fn title_key() -> Seq<char> {
    seq!['t', 'i', 't', 'l', 'e']
}

pub open spec fn date_key() -> Seq<char> {
    seq!['d', 'a', 't', 'e']
}

/// Loads one post's text: splits off the frontmatter header, reads it as a
/// YAML mapping, and demands the `title` and `date` keys; the rest of the
/// text is the body, verbatim.
pub fn load(raw_text: &str) -> (r: Result<(Frontmatter, String), FrontmatterError>)
    ensures
        match spec_split(raw_text@) {
            Err(FrontmatterError::MissingOpeningDelimiter) => r == Err::<(Frontmatter, String),
                _,
            >(FrontmatterError::MissingOpeningDelimiter),
            Err(_) => r == Err::<(Frontmatter, String), _>(
                FrontmatterError::MissingClosingDelimiter,
            ),
            Ok(p) => match yaml_string_pairs(p.0) {
                None => r matches Err(FrontmatterError::InvalidHeader(_)),
                Some(ps) => match (pairs_lookup(ps, title_key()), pairs_lookup(ps, date_key())) {
                    (Some(Some(t)), Some(Some(d))) => r matches Ok(q) && q.0.title@ == t
                        && q.0.date@ == d && q.1@ == p.1,
                    (None, _) => r == Err::<(Frontmatter, String), _>(
                        FrontmatterError::MissingTitle,
                    ),
                    (Some(Some(_)), None) => r == Err::<(Frontmatter, String), _>(
                        FrontmatterError::MissingDate,
                    ),
                    _ => r matches Err(FrontmatterError::InvalidHeader(_)),
                },
            },
        },
{
    let (header, body) = match split_frontmatter(raw_text) {
        Ok(p) => p,
        Err(FrontmatterError::MissingOpeningDelimiter) => {
            return Err(FrontmatterError::MissingOpeningDelimiter);
        },
        Err(_) => {
            return Err(FrontmatterError::MissingClosingDelimiter);
        },
    };
    let pairs = match parse_yaml_string_pairs(header.as_str()) {
        Ok(ps) => ps,
        Err(msg) => {
            return Err(FrontmatterError::InvalidHeader(msg));
        },
    };
    proof {
        reveal_strlit("title");
        reveal_strlit("date");
        assert("title"@ =~= title_key());
        assert("date"@ =~= date_key());
    }
    let title = match lookup_value(&pairs, "title") {
        Some(Some(t)) => t,
        Some(None) => {
            return Err(
                FrontmatterError::InvalidHeader("the title value is not a string".to_owned()),
            );
        },
        None => {
            return Err(FrontmatterError::MissingTitle);
        },
    };
    let date = match lookup_value(&pairs, "date") {
        Some(Some(d)) => d,
        Some(None) => {
            return Err(
                FrontmatterError::InvalidHeader("the date value is not a string".to_owned()),
            );
        },
        None => {
            return Err(FrontmatterError::MissingDate);
        },
    };
    Ok((Frontmatter { title, date }, body))
}

proof fn lemma_find_close_first(rest: Seq<char>, i: int, m: int)
    requires
        0 <= i <= m,
        close_at(rest, m),
        forall|j: int| i <= j < m ==> !close_at(rest, j),
    ensures
        find_close(rest, i) == Some(m),
    decreases m - i,
{
    if i < m {
        assert(!close_at(rest, i));
        lemma_find_close_first(rest, i + 1, m);
    }
}

/// Law: for a text `---\n` + header + `---\n` + body whose header contains
/// no closing delimiter line, splitting returns exactly that header and
/// exactly that body.
#[verifier::rlimit(100)]
pub proof fn lemma_split_round_trip(h: Seq<char>, b: Seq<char>)
    requires
        forall|j: int| !close_at(h, j),
    ensures
        spec_split(delim() + h + delim() + b) == Ok::<_, FrontmatterError>((h, b)),
{
    let s = delim() + h + delim() + b;
    let rest = s.skip(4);
    assert(rest =~= h + delim() + b);
    assert(has_opening(s)) by {
        assert(s.take(4) =~= delim());
    }
    let m = h.len() as int;
    assert(close_at(rest, m)) by {
        assert(rest.subrange(m, m + 4) =~= delim());
    }
    assert forall|j: int| 0 <= j < m implies !close_at(rest, j) by {
        if close_at(rest, j) {
            assert(rest.subrange(j, j + 4)[3] == rest[j + 3]);
            assert(rest[j + 3] == '\n');
            if j + 4 <= m {
                assert(close_at(h, j)) by {
                    assert(h.subrange(j, j + 4) =~= rest.subrange(j, j + 4));
                }
            } else {
                assert(rest[j + 3] == delim()[j + 3 - m]);
            }
        }
    }
    lemma_find_close_first(rest, 0, m);
    assert(rest.take(m) =~= h);
    assert(rest.skip(m + 4) =~= b);
}

} // verus!
