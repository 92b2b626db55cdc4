use vstd::prelude::*;
use vstd::string::*;

verus! {

/// How many `*` the text holds.
pub open spec fn star_count(s: Seq<char>) -> nat
    decreases s.len(),
{
    if s.len() == 0 {
        0
    } else {
        star_count(s.drop_last()) + if s.last() == '*' {
            1nat
        } else {
            0nat
        }
    }
}

/// A source string that names a set of files: it holds exactly one `*`.
pub open spec fn is_wildcard(s: Seq<char>) -> bool {
    star_count(s) == 1
}

/// Whether an import source holds exactly one `*`.
pub fn is_wildcard_source(src: &str) -> (r: bool)
    ensures
        r == is_wildcard(src@),
{
    let n = src.unicode_len();
    let mut count: usize = 0;
    let mut i: usize = 0;
    assert(src@.take(0) =~= Seq::<char>::empty());
    while i < n
        invariant
            n == src@.len(),
            i <= n,
            count == star_count(src@.take(i as int)),
            count <= i,
        decreases n - i,
    {
        assert(src@.take(i + 1).drop_last() =~= src@.take(i as int));
        if src.get_char(i) == '*' {
            count = count + 1;
        }
        i = i + 1;
    }
    assert(src@.take(n as int) =~= src@);
    count == 1
}

/// Index of the first `*`.
pub open spec fn star_index(s: Seq<char>) -> int
    decreases s.len(),
{
    if s.len() == 0 {
        0
    } else if s[0] == '*' {
        0
    } else {
        1 + star_index(s.drop_first())
    }
}

proof fn lemma_star_index(s: Seq<char>)
    requires
        star_count(s) > 0,
    ensures
        0 <= star_index(s) < s.len(),
        s[star_index(s)] == '*',
        forall|j: int| 0 <= j < star_index(s) ==> s[j] != '*',
    decreases s.len(),
{
    if s[0] != '*' {
        lemma_star_count_first(s);
        lemma_star_index(s.drop_first());
        assert forall|j: int| 0 <= j < star_index(s) implies s[j] != '*' by {
            if j > 0 {
                assert(s[j] == s.drop_first()[j - 1]);
            }
        }
    }
}

proof fn lemma_star_count_first(s: Seq<char>)
    requires
        s.len() > 0,
    ensures
        star_count(s) == star_count(s.drop_first()) + if s[0] == '*' {
            1nat
        } else {
            0nat
        },
    decreases s.len(),
{
    if s.len() > 1 {
        let d = s.drop_first();
        let l = s.drop_last();
        lemma_star_count_first(l);
        assert(l.drop_first() =~= d.drop_last());
        assert(d.last() == s.last());
        assert(l[0] == s[0]);
        assert(star_count(d) == star_count(d.drop_last()) + if d.last() == '*' {
            1nat
        } else {
            0nat
        });
        assert(star_count(s) == star_count(l) + if s.last() == '*' {
            1nat
        } else {
            0nat
        });
    } else {
        assert(s.drop_first().len() == 0);
        assert(s.drop_last().len() == 0);
        assert(star_count(s.drop_first()) == 0);
        assert(star_count(s.drop_last()) == 0);
        assert(s.last() == s[0]);
        assert(star_count(s) == star_count(s.drop_last()) + if s.last() == '*' {
            1nat
        } else {
            0nat
        });
    }
}

/// Index of the first `*` of a source string.
fn find_star(src: &str) -> (r: usize)
    requires
        star_count(src@) > 0,
    ensures
        r == star_index(src@),
        r < src@.len(),
{
    proof {
        lemma_star_index(src@);
    }
    let n = src.unicode_len();
    let mut i: usize = 0;
    while i < n
        invariant
            n == src@.len(),
            i <= star_index(src@),
            0 <= star_index(src@) < src@.len(),
            src@[star_index(src@)] == '*',
            forall|j: int| 0 <= j < star_index(src@) ==> src@[j] != '*',
        decreases n - i,
    {
        if src.get_char(i) == '*' {
            return i;
        }
        i = i + 1;
    }
    i
}

/// Characters that have a meaning in a regular expression.
pub open spec fn is_meta_char(c: char) -> bool {
    c == '\\' || c == '.' || c == '+' || c == '*' || c == '?' || c == '(' || c == ')' || c
        == '|' || c == '[' || c == ']' || c == '{' || c == '}' || c == '^' || c == '$' || c == '#'
        || c == '&' || c == '-' || c == '~'
}

/// The text with a backslash before each meta character: an expression that matches it literally.
pub open spec fn escaped(s: Seq<char>) -> Seq<char>
    decreases s.len(),
{
    if s.len() == 0 {
        s
    } else {
        escaped(s.drop_last()) + if is_meta_char(s.last()) {
            seq!['\\', s.last()]
        } else {
            seq![s.last()]
        }
    }
}

/// The capture expression of a wildcard source: the text around the `*` matched literally,
/// the `*` replaced by the group `(.*)`.
pub open spec fn capture_source(src: Seq<char>) -> Seq<char> {
    let k = star_index(src);
    escaped(src.take(k)) + seq!['(', '.', '*', ')'] + escaped(src.skip(k + 1))
}

/// Relies on regex::escape: each meta character gets a backslash in front of it, every
/// other character is kept.
#[verifier::external_body]
fn escape_text(text: &str) -> (r: String)
    ensures
        r@ == escaped(text@),
{
    regex::escape(text)
}

/// Builds the capture expression of a source string holding a `*`.
pub fn capture_expression(src: &str) -> (r: String)
    requires
        star_count(src@) > 0,
    ensures
        r@ == capture_source(src@),
{
    let k = find_star(src);
    let n = src.unicode_len();
    let mut r = escape_text(src.substring_char(0, k));
    r.append("(.*)");
    let tail = escape_text(src.substring_char(k + 1, n));
    r.append(tail.as_str());
    proof {
        reveal_strlit("(.*)");
        assert(src@.subrange(0, k as int) =~= src@.take(k as int));
        assert(src@.subrange(k + 1, n as int) =~= src@.skip(k + 1));
        assert(r@ =~= capture_source(src@));
    }
    r
}

#[verifier::external_type_specification]
#[verifier::external_body]
pub struct ExRegex(regex::Regex);

/// Whether the regex crate compiles this expression.
pub uninterp spec fn regex_compiles(source: Seq<char>) -> bool;

/// Group 1 of the leftmost match of the expression in the haystack, if it matches.
pub uninterp spec fn first_group(source: Seq<char>, haystack: Seq<char>) -> Option<Seq<char>>;

/// A compiled regular expression together with the text it was compiled from.
pub struct CaptureRegex {
    source: String,
    re: regex::Regex,
}

impl CaptureRegex {
    /// The expression this value was compiled from.
    pub closed spec fn source(&self) -> Seq<char> {
        self.source@
    }

    /// Compiles the capture expression of a source string holding a `*`.
    pub fn for_source(src: &str) -> (r: Option<CaptureRegex>)
        requires
            star_count(src@) > 0,
        ensures
            r is Some <==> regex_compiles(capture_source(src@)),
            r matches Some(m) ==> m.source() == capture_source(src@),
    {
        compile(capture_expression(src))
    }
}

/// Relies on regex::Regex::new: it refuses exactly the expressions it cannot compile.
/// The compiled value is kept beside the text it came from.
#[verifier::external_body]
fn compile(source: String) -> (r: Option<CaptureRegex>)
    ensures
        r is Some <==> regex_compiles(source@),
        r matches Some(m) ==> m.source@ == source@,
{
    match regex::Regex::new(&source) {
        Ok(re) => Some(CaptureRegex { source, re }),
        Err(_) => None,
    }
}

/// Relies on regex::Regex::captures: the text of group 1 in the leftmost match, or
/// nothing where the expression does not match or the group took no part.
#[verifier::external_body]
fn first_group_of(m: &CaptureRegex, haystack: &str) -> (r: Option<String>)
    ensures
        r is Some <==> first_group(m.source@, haystack@) is Some,
        r matches Some(g) ==> first_group(m.source@, haystack@) == Some(g@),
{
    m.re.captures(haystack).and_then(|c| c.get(1)).map(|g| g.as_str().to_string())
}

impl CaptureRegex {
    /// The text that the `*` stood for in a path.
    pub fn capture(&self, path: &str) -> (r: Option<String>)
        ensures
            r is Some <==> first_group(self.source(), path@) is Some,
            r matches Some(g) ==> first_group(self.source(), path@) == Some(g@),
    {
        first_group_of(self, path)
    }
}

/// Whether glob accepts the pattern.
pub uninterp spec fn glob_pattern_valid(pattern: Seq<char>) -> bool;

/// Relies on glob::glob and the `Paths` it returns: the pattern is refused exactly when glob
/// cannot parse it; otherwise each entry found, in glob's order, with nothing for one that
/// could not be read or whose path is not UTF-8.
#[verifier::external_body]
pub(crate) fn glob_paths(pattern: &str) -> (r: Option<Vec<Option<String>>>)
    ensures
        r is Some <==> glob_pattern_valid(pattern@),
{
    match glob::glob(pattern) {
        Ok(paths) => Some(
            paths.map(
                |e| match e {
                    Ok(p) => p.into_os_string().into_string().ok(),
                    Err(_) => None,
                },
            ).collect(),
        ),
        Err(_) => None,
    }
}

} // verus!
