use vstd::prelude::*;
use vstd::string::*;

verus! {

/// The importing file's path: `file` itself when it is absolute, else `file` under `cwd`.
pub open spec fn joined_file(cwd: Seq<char>, file: Seq<char>) -> Seq<char> {
    if file.len() > 0 && file[0] == '/' {
        file
    } else if cwd.len() == 0 || cwd.last() == '/' {
        cwd + file
    } else {
        cwd + seq!['/'] + file
    }
}

/// The path up to and including its last `/`; empty when it holds none.
pub open spec fn dir_prefix(path: Seq<char>) -> Seq<char>
    decreases path.len(),
{
    if path.len() == 0 || path.last() == '/' {
        path
    } else {
        dir_prefix(path.drop_last())
    }
}

/// The directory prefix against which the wildcard sources of a file are resolved.
pub open spec fn anchor(cwd: Seq<char>, file: Seq<char>) -> Seq<char> {
    dir_prefix(joined_file(cwd, file))
}

pub open spec fn has_prefix(s: Seq<char>, p: Seq<char>) -> bool {
    p.len() <= s.len() && s.take(p.len() as int) == p
}

/// A path that already reads as relative: it starts with `./` or `../`.
pub open spec fn is_relative_source(p: Seq<char>) -> bool {
    has_prefix(p, seq!['.', '/']) || has_prefix(p, seq!['.', '.', '/'])
}

/// A path relative to the importing directory as an import source: kept where it already
/// reads as relative, else written with a leading `./`.
pub open spec fn import_path(rest: Seq<char>) -> Seq<char> {
    if is_relative_source(rest) {
        rest
    } else {
        seq!['.', '/'] + rest
    }
}

/// Whether `s` starts with `p`.
pub fn starts_with(s: &str, p: &str) -> (r: bool)
    ensures
        r == has_prefix(s@, p@),
{
    let n = s.unicode_len();
    let m = p.unicode_len();
    if m > n {
        return false;
    }
    let mut i: usize = 0;
    while i < m
        invariant
            n == s@.len(),
            m == p@.len(),
            m <= n,
            i <= m,
            forall|j: int| 0 <= j < i ==> s@[j] == p@[j],
        decreases m - i,
    {
        if s.get_char(i) != p.get_char(i) {
            assert(s@.take(m as int)[i as int] != p@[i as int]);
            return false;
        }
        i = i + 1;
    }
    assert(s@.take(m as int) =~= p@);
    true
}

/// The directory prefix for the file `file_name` seen from `cwd`.
pub fn anchor_prefix(cwd: &str, file_name: &str) -> (r: String)
    ensures
        r@ == anchor(cwd@, file_name@),
{
    proof {
        reveal_strlit("/");
    }
    let absolute = file_name.unicode_len() > 0 && file_name.get_char(0) == '/';
    let mut full = String::new();
    if !absolute {
        full.append(cwd);
        let c = cwd.unicode_len();
        if c > 0 && cwd.get_char(c - 1) != '/' {
            full.append("/");
        }
    }
    full.append(file_name);
    assert(full@ =~= joined_file(cwd@, file_name@));
    let n = full.as_str().unicode_len();
    let mut j: usize = n;
    assert(full@.take(n as int) =~= full@);
    let mut done = false;
    while j > 0 && !done
        invariant
            n == full@.len(),
            j <= n,
            dir_prefix(full@) == dir_prefix(full@.take(j as int)),
            done ==> j > 0 && full@[j - 1] == '/',
        decreases j + if done { 0int } else { 1int },
    {
        if full.as_str().get_char(j - 1) == '/' {
            done = true;
        } else {
            assert(full@.take(j as int).drop_last() =~= full@.take(j - 1));
            j = j - 1;
        }
    }
    if j > 0 {
        assert(full@.take(j as int).last() == full@[j - 1]);
    }
    let r = full.as_str().substring_char(0, j).to_string();
    assert(full@.subrange(0, j as int) =~= full@.take(j as int));
    r
}

/// The import source of `path` relative to `prefix`, when `path` lies under it.
pub fn relative_import(prefix: &str, path: &str) -> (r: Option<String>)
    ensures
        r is Some <==> has_prefix(path@, prefix@),
        r matches Some(s) ==> s@ == import_path(path@.skip(prefix@.len() as int)),
{
    if !starts_with(path, prefix) {
        return None;
    }
    let n = path.unicode_len();
    let k = prefix.unicode_len();
    let rest = path.substring_char(k, n);
    assert(rest@ =~= path@.skip(k as int));
    proof {
        reveal_strlit("./");
        reveal_strlit("../");
        assert("./"@ =~= seq!['.', '/']);
        assert("../"@ =~= seq!['.', '.', '/']);
    }
    if starts_with(rest, "./") || starts_with(rest, "../") {
        Some(rest.to_string())
    } else {
        let mut s = "./".to_string();
        s.append(rest);
        assert(s@ =~= import_path(path@.skip(k as int)));
        Some(s)
    }
}

} // verus!
