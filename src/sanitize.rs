use vstd::prelude::*;
use vstd::string::*;

verus! {

/// A character that may stand in a generated property name.
pub open spec fn is_word_char(c: char) -> bool {
    ('a' <= c && c <= 'z') || ('A' <= c && c <= 'Z') || ('0' <= c && c <= '9') || c == '_'
}

/// An ASCII letter or digit.
pub open spec fn is_ascii_alnum(c: char) -> bool {
    is_word_char(c) && c != '_'
}

pub open spec fn dash_to_underscore(c: char) -> char {
    if c == '-' {
        '_'
    } else {
        c
    }
}

/// Steps one and two: `-` becomes `_`, then every character outside the word set goes.
pub open spec fn cleaned(s: Seq<char>) -> Seq<char>
    decreases s.len(),
{
    if s.len() == 0 {
        s
    } else {
        let r = cleaned(s.drop_last());
        let c = dash_to_underscore(s.last());
        if is_word_char(c) {
            r.push(c)
        } else {
            r
        }
    }
}

/// Step three: every maximal run of `_` becomes one `_`.
pub open spec fn collapsed(s: Seq<char>) -> Seq<char>
    decreases s.len(),
{
    if s.len() == 0 {
        s
    } else {
        let r = collapsed(s.drop_last());
        if s.last() == '_' && r.len() > 0 && r.last() == '_' {
            r
        } else {
            r.push(s.last())
        }
    }
}

/// Leading `_` removed.
pub open spec fn trim_leading(s: Seq<char>) -> Seq<char>
    decreases s.len(),
{
    if s.len() == 0 {
        s
    } else {
        let r = trim_leading(s.drop_last());
        if r.len() == 0 && s.last() == '_' {
            r
        } else {
            r.push(s.last())
        }
    }
}

/// Trailing `_` removed.
pub open spec fn trim_trailing(s: Seq<char>) -> Seq<char>
    decreases s.len(),
{
    if s.len() > 0 && s.last() == '_' {
        trim_trailing(s.drop_last())
    } else {
        s
    }
}

/// The property name made from a captured file-name fragment.
pub open spec fn sanitized(s: Seq<char>) -> Seq<char> {
    trim_trailing(trim_leading(collapsed(cleaned(s))))
}

proof fn lemma_prefix_step(s: Seq<char>, i: int)
    requires
        0 <= i < s.len(),
    ensures
        s.take(i + 1).drop_last() == s.take(i),
        s.take(i + 1).last() == s[i],
{
    assert(s.take(i + 1).drop_last() =~= s.take(i));
}

proof fn lemma_trim_trailing_push(s: Seq<char>)
    requires
        s.len() == 0 || s.last() != '_',
    ensures
        trim_trailing(s.push('_')) == s,
        trim_trailing(s) == s,
{
    assert(trim_trailing(s) == s);
    assert(s.push('_').drop_last() =~= s);
    assert(s.push('_').last() == '_');
    assert(trim_trailing(s.push('_')) == trim_trailing(s.push('_').drop_last()));
}

/// Every character of `s` is in `[A-Za-z0-9_]`.
pub open spec fn all_word_chars(s: Seq<char>) -> bool {
    forall|i: int| 0 <= i < s.len() ==> is_word_char(#[trigger] s[i])
}

/// `s` holds an ASCII letter or digit.
pub open spec fn has_ascii_alnum(s: Seq<char>) -> bool {
    exists|i: int| 0 <= i < s.len() && is_ascii_alnum(#[trigger] s[i])
}

proof fn lemma_push_keeps(r: Seq<char>, c: char)
    ensures
        all_word_chars(r) && is_word_char(c) ==> all_word_chars(r.push(c)),
        has_ascii_alnum(r) ==> has_ascii_alnum(r.push(c)),
        is_ascii_alnum(c) ==> has_ascii_alnum(r.push(c)),
{
    let q = r.push(c);
    if has_ascii_alnum(r) {
        let i = choose|i: int| 0 <= i < r.len() && is_ascii_alnum(#[trigger] r[i]);
        assert(q[i] == r[i]);
    }
    if is_ascii_alnum(c) {
        assert(q[r.len() as int] == c);
    }
    if all_word_chars(r) && is_word_char(c) {
        assert forall|i: int| 0 <= i < q.len() implies is_word_char(#[trigger] q[i]) by {
            if i < r.len() {
                assert(q[i] == r[i]);
            }
        }
    }
}

proof fn lemma_drop_last_keeps(s: Seq<char>)
    requires
        s.len() > 0,
    ensures
        all_word_chars(s) ==> all_word_chars(s.drop_last()),
        has_ascii_alnum(s) && !is_ascii_alnum(s.last()) ==> has_ascii_alnum(s.drop_last()),
{
    let d = s.drop_last();
    if all_word_chars(s) {
        assert forall|i: int| 0 <= i < d.len() implies is_word_char(#[trigger] d[i]) by {
            assert(d[i] == s[i]);
        }
    }
    if has_ascii_alnum(s) && !is_ascii_alnum(s.last()) {
        let i = choose|i: int| 0 <= i < s.len() && is_ascii_alnum(#[trigger] s[i]);
        assert(i < s.len() - 1);
        assert(d[i] == s[i]);
    }
}

proof fn lemma_cleaned_shape(s: Seq<char>)
    ensures
        all_word_chars(cleaned(s)),
        has_ascii_alnum(s) ==> has_ascii_alnum(cleaned(s)),
    decreases s.len(),
{
    if s.len() > 0 {
        let d = s.drop_last();
        lemma_cleaned_shape(d);
        lemma_drop_last_keeps(s);
        lemma_push_keeps(cleaned(d), dash_to_underscore(s.last()));
    }
}

proof fn lemma_collapsed_shape(s: Seq<char>)
    ensures
        all_word_chars(s) ==> all_word_chars(collapsed(s)),
        has_ascii_alnum(s) ==> has_ascii_alnum(collapsed(s)),
    decreases s.len(),
{
    if s.len() > 0 {
        let d = s.drop_last();
        lemma_collapsed_shape(d);
        lemma_drop_last_keeps(s);
        lemma_push_keeps(collapsed(d), s.last());
    }
}

proof fn lemma_trim_leading_shape(s: Seq<char>)
    ensures
        all_word_chars(s) ==> all_word_chars(trim_leading(s)),
        has_ascii_alnum(s) ==> has_ascii_alnum(trim_leading(s)),
    decreases s.len(),
{
    if s.len() > 0 {
        let d = s.drop_last();
        lemma_trim_leading_shape(d);
        lemma_drop_last_keeps(s);
        lemma_push_keeps(trim_leading(d), s.last());
    }
}

proof fn lemma_trim_trailing_shape(s: Seq<char>)
    ensures
        all_word_chars(s) ==> all_word_chars(trim_trailing(s)),
        has_ascii_alnum(s) ==> has_ascii_alnum(trim_trailing(s)),
    decreases s.len(),
{
    if s.len() > 0 && s.last() == '_' {
        lemma_drop_last_keeps(s);
        lemma_trim_trailing_shape(s.drop_last());
    }
}

/// A property name holds only characters of `[A-Za-z0-9_]`, and it is not empty as soon
/// as the fragment it was made from holds an ASCII letter or digit.
pub proof fn lemma_property_name_shape(fragment: Seq<char>)
    ensures
        all_word_chars(sanitized(fragment)),
        has_ascii_alnum(fragment) ==> sanitized(fragment).len() > 0,
{
    let c = cleaned(fragment);
    let t = collapsed(c);
    let u = trim_leading(t);
    lemma_cleaned_shape(fragment);
    lemma_collapsed_shape(c);
    lemma_trim_leading_shape(t);
    lemma_trim_trailing_shape(u);
}

/// Builds the property name for a captured fragment: `-` becomes `_`, characters outside
/// `[A-Za-z0-9_]` are dropped, runs of `_` shrink to one and `_` at either end goes.
pub fn create_valid_property_name(ident: &str) -> (r: String)
    ensures
        r@ == sanitized(ident@),
{
    let n = ident.unicode_len();
    let mut out = String::new();
    let mut pending: bool = false;
    let mut i: usize = 0;
    proof {
        reveal_strlit("_");
        assert(ident@.take(0) =~= Seq::<char>::empty());
    }
    while i < n
        invariant
            n == ident@.len(),
            0 <= i <= n,
            trim_leading(collapsed(cleaned(ident@.take(i as int)))) == (if pending {
                out@.push('_')
            } else {
                out@
            }),
            out@.len() == 0 || out@.last() != '_',
            pending ==> out@.len() > 0,
            ({
                let t = collapsed(cleaned(ident@.take(i as int)));
                let u = trim_leading(t);
                u.len() > 0 ==> t.len() > 0 && t.last() == u.last()
            }),
        decreases n - i,
    {
        let piece = ident.substring_char(i, i + 1);
        let c = ident.get_char(i);
        proof {
            reveal_strlit("_");
            lemma_prefix_step(ident@, i as int);
            assert(piece@ =~= seq![c]);
        }
        let ghost t0 = collapsed(cleaned(ident@.take(i as int)));
        let ghost c0 = cleaned(ident@.take(i as int));
        let ghost u0 = trim_leading(t0);
        if c == '-' || c == '_' {
            if out.unicode_len() > 0 {
                pending = true;
            }
            proof {
                let s1 = ident@.take(i + 1);
                assert(cleaned(s1) == c0.push('_'));
                let c1 = c0.push('_');
                assert(c1.drop_last() =~= c0);
                let t1 = collapsed(c1);
                if t0.len() > 0 && t0.last() == '_' {
                    assert(t1 == t0);
                } else {
                    assert(t1 == t0.push('_'));
                    assert(t0.push('_').drop_last() =~= t0);
                }
            }
        } else if ('a' <= c && c <= 'z') || ('A' <= c && c <= 'Z') || ('0' <= c && c <= '9') {
            if pending {
                out.append("_");
                pending = false;
            }
            out.append(piece);
            proof {
                let s1 = ident@.take(i + 1);
                let c1 = c0.push(c);
                assert(cleaned(s1) == c1);
                assert(c1.drop_last() =~= c0);
                let t1 = t0.push(c);
                assert(collapsed(c1) == t1);
                assert(t1.drop_last() =~= t0);
                assert(trim_leading(t1) == u0.push(c));
            }
        } else {
            proof {
                let s1 = ident@.take(i + 1);
                assert(cleaned(s1) == c0);
            }
        }
        i = i + 1;
    }
    proof {
        assert(ident@.take(n as int) =~= ident@);
        lemma_trim_trailing_push(out@);
    }
    out
}

} // verus!
