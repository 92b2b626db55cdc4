use vstd::prelude::*;
use vstd::string::*;

use crate::ast::{default_binding, ImportDecl, KeyValue, ModuleItem, ObjectConst, Specifier, TransformError};
use crate::ident::{synthetic_identifier, synthetic_name};
use crate::paths::{anchor, anchor_prefix, has_prefix, import_path, relative_import};
use crate::pattern::{
    capture_source, first_group, glob_paths, glob_pattern_valid, is_wildcard, is_wildcard_source,
    regex_compiles, star_count, CaptureRegex,
};
use crate::sanitize::{create_valid_property_name, sanitized};

verus! {

/// One expanded match: its import source and its property name.
pub type Entry = (Seq<char>, Seq<char>);

/// An import statement whose source holds exactly one `*`.
pub open spec fn is_wildcard_item(it: ModuleItem) -> bool {
    match it {
        ModuleItem::Import(d) => is_wildcard(d.src@),
        _ => false,
    }
}

/// The entry made from one path found for the wildcard source `src`, resolved under `prefix`.
pub open spec fn entry_of(prefix: Seq<char>, src: Seq<char>, path: Seq<char>) -> Option<Entry> {
    if has_prefix(path, prefix) {
        match first_group(capture_source(src), path) {
            Some(f) => Some((import_path(path.skip(prefix.len() as int)), sanitized(f))),
            None => None,
        }
    } else {
        None
    }
}

/// What expanding the paths found for `src` gives, with the counter at `counter` before:
/// the entries in the order found, or the error of the first path that fails.
pub open spec fn expansion_outcome(
    prefix: Seq<char>,
    src: Seq<char>,
    paths: Seq<Option<String>>,
    counter: nat,
) -> Result<Seq<Entry>, TransformError>
    decreases paths.len(),
{
    if paths.len() == 0 {
        Ok(Seq::empty())
    } else {
        match expansion_outcome(prefix, src, paths.drop_last(), counter) {
            Err(e) => Err(e),
            Ok(es) => match paths.last() {
                None => Err(TransformError::Filesystem),
                Some(p) => match entry_of(prefix, src, p@) {
                    None => Err(TransformError::InternalConsistency),
                    Some(e) => if counter + es.len() >= usize::MAX {
                        Err(TransformError::CounterExhausted)
                    } else {
                        Ok(es.push(e))
                    },
                },
            },
        }
    }
}

/// The local name of an import item with a single default specifier.
pub open spec fn default_binding_of_import(it: ModuleItem) -> Option<Seq<char>> {
    match it {
        ModuleItem::Import(d) => default_binding(d),
        _ => None,
    }
}

/// Each entry was made by `entry_of` from some path, for the source `src` under `prefix`.
pub open spec fn found_under(prefix: Seq<char>, src: Seq<char>, es: Seq<Entry>) -> bool {
    forall|k: int| 0 <= k < es.len() ==> made_from_path(prefix, src, #[trigger] es[k])
}

/// The entry was made by `entry_of` from some path.
pub open spec fn made_from_path(prefix: Seq<char>, src: Seq<char>, e: Entry) -> bool {
    exists|p: Seq<char>| #[trigger] entry_of(prefix, src, p) == Some(e)
}

/// `import <local> from "<src>"`.
pub open spec fn is_default_import(it: ModuleItem, local: Seq<char>, src: Seq<char>) -> bool {
    match it {
        ModuleItem::Import(d) => d.src@ == src && default_binding(d) == Some(local),
        _ => false,
    }
}

/// `const <name> = { <key k>: $_import_<first + k + 1>, ... };` over the entries.
pub open spec fn is_lookup_object(it: ModuleItem, name: Seq<char>, es: Seq<Entry>, first: nat) -> bool {
    match it {
        ModuleItem::Const(o) => {
            &&& o.name@ == name
            &&& o.props@.len() == es.len()
            &&& forall|k: int|
                0 <= k < es.len() ==> (#[trigger] o.props@[k]).key@ == es[k].1
                    && o.props@[k].value@ == synthetic_name((first + k + 1) as nat)
        },
        _ => false,
    }
}

/// The items that replace a wildcard import bound to `name`: one default import per entry,
/// bound to the next generated name, then the lookup object.
pub open spec fn is_expansion(seg: Seq<ModuleItem>, name: Seq<char>, es: Seq<Entry>, first: nat) -> bool {
    &&& seg.len() == es.len() + 1
    &&& forall|k: int|
        0 <= k < es.len() ==> is_default_import(
            #[trigger] seg[k],
            synthetic_name((first + k + 1) as nat),
            es[k].0,
        )
    &&& is_lookup_object(seg[es.len() as int], name, es, first)
}

/// How many entries the listings hold together.
pub open spec fn total(ls: Seq<Seq<Entry>>) -> nat
    decreases ls.len(),
{
    if ls.len() == 0 {
        0
    } else {
        total(ls.drop_last()) + ls.last().len()
    }
}

/// `out` is `body` rewritten: each wildcard import replaced by its expansion over the next
/// listing of `ls`, made from paths under `prefix`, with generated names counted on from
/// `first`; every other item kept, in order.
pub open spec fn rewritten(
    body: Seq<ModuleItem>,
    out: Seq<ModuleItem>,
    ls: Seq<Seq<Entry>>,
    first: nat,
    prefix: Seq<char>,
) -> bool
    decreases body.len(),
{
    if body.len() == 0 {
        out.len() == 0 && ls.len() == 0
    } else {
        let x = body.last();
        if is_wildcard_item(x) {
            &&& ls.len() > 0
            &&& out.len() >= ls.last().len() + 1
            &&& match x {
                ModuleItem::Import(d) => match default_binding(d) {
                    Some(name) => is_expansion(
                        out.skip(out.len() - (ls.last().len() + 1)),
                        name,
                        ls.last(),
                        first + total(ls.drop_last()),
                    ) && found_under(prefix, d.src@, ls.last()),
                    None => false,
                },
                _ => false,
            }
            &&& rewritten(
                body.drop_last(),
                out.take(out.len() - (ls.last().len() + 1)),
                ls.drop_last(),
                first,
                prefix,
            )
        } else {
            &&& out.len() > 0
            &&& out.last() == x
            &&& rewritten(body.drop_last(), out.drop_last(), ls, first, prefix)
        }
    }
}

/// `seg` is the expansion of the wildcard import `decl` over some listing of paths under
/// `prefix`, with generated names counted on from `before` up to `after`.
pub open spec fn expanded_by(
    seg: Seq<ModuleItem>,
    decl: ImportDecl,
    before: nat,
    after: nat,
    prefix: Seq<char>,
) -> bool {
    default_binding(decl) is Some && exists|es: Seq<Entry>|
        is_expansion(seg, default_binding(decl)->0, es, before) && after == before + es.len()
            && found_under(prefix, decl.src@, es)
}

/// `out` is `body` rewritten over some listings of paths under `prefix`, with generated
/// names counted on from `before` up to `after`.
pub open spec fn rewritten_by(
    body: Seq<ModuleItem>,
    out: Seq<ModuleItem>,
    before: nat,
    after: nat,
    prefix: Seq<char>,
) -> bool {
    exists|ls: Seq<Seq<Entry>>| rewritten(body, out, ls, before, prefix) && after == before + total(ls)
}

/// Some wildcard import of `body` lacks a single default specifier.
pub open spec fn has_unsupported_wildcard(body: Seq<ModuleItem>) -> bool {
    exists|i: int|
        0 <= i < body.len() && is_wildcard_item(#[trigger] body[i]) && match body[i] {
            ModuleItem::Import(d) => default_binding(d) is None,
            _ => false,
        }
}

/// A wildcard import that can be searched for: it has a single default specifier, its
/// capture expression compiles and glob accepts its pattern under `prefix`.
pub open spec fn searchable(d: ImportDecl, prefix: Seq<char>) -> bool {
    &&& default_binding(d) is Some
    &&& regex_compiles(capture_source(d.src@))
    &&& glob_pattern_valid(prefix + d.src@)
}

/// The first wildcard import of `body`, if any.
pub open spec fn first_wildcard(body: Seq<ModuleItem>) -> Option<ImportDecl>
    decreases body.len(),
{
    if body.len() == 0 {
        None
    } else if is_wildcard_item(body[0]) {
        match body[0] {
            ModuleItem::Import(d) => Some(d),
            _ => None,
        }
    } else {
        first_wildcard(body.drop_first())
    }
}

/// Item `m` of `body` is its first wildcard import.
pub open spec fn is_first_wildcard(body: Seq<ModuleItem>, m: int) -> bool {
    &&& 0 <= m < body.len()
    &&& is_wildcard_item(body[m])
    &&& forall|j: int| 0 <= j < m ==> !is_wildcard_item(#[trigger] body[j])
}

proof fn lemma_first_wildcard(body: Seq<ModuleItem>)
    ensures
        first_wildcard(body) matches Some(d) ==> exists|m: int|
            is_first_wildcard(body, m) && body[m] == ModuleItem::Import(d),
    decreases body.len(),
{
    if body.len() > 0 && !is_wildcard_item(body[0]) {
        let t = body.drop_first();
        lemma_first_wildcard(t);
        if let Some(d) = first_wildcard(t) {
            let m = choose|m: int| is_first_wildcard(t, m) && t[m] == ModuleItem::Import(d);
            assert forall|j: int| 0 <= j < m + 1 implies !is_wildcard_item(#[trigger] body[j]) by {
                if j > 0 {
                    assert(body[j] == t[j - 1]);
                }
            }
            assert(is_first_wildcard(body, m + 1) && body[m + 1] == ModuleItem::Import(d));
        }
    } else if body.len() > 0 {
        assert(is_first_wildcard(body, 0));
    }
}

/// Some wildcard import of `body` has a source whose capture expression does not compile,
/// or whose search pattern under `prefix` glob refuses.
pub open spec fn has_invalid_pattern(body: Seq<ModuleItem>, prefix: Seq<char>) -> bool {
    exists|i: int|
        0 <= i < body.len() && is_wildcard_item(#[trigger] body[i]) && match body[i] {
            ModuleItem::Import(d) => !regex_compiles(capture_source(d.src@)) || !glob_pattern_valid(
                prefix + d.src@,
            ),
            _ => false,
        }
}

/// Rewrites the wildcard imports of one module. Holds the counter of generated bindings,
/// which starts at zero for each module.
pub struct GlobImporter {
    cwd: String,
    file_name: String,
    id_counter: usize,
}

/// An importer for the file `file_name`, relative to `cwd` unless absolute.
pub fn glob_importer(cwd: String, file_name: String) -> (r: GlobImporter)
    ensures
        r.counter() == 0,
        r.anchor() == anchor(cwd@, file_name@),
{
    GlobImporter { cwd, file_name, id_counter: 0 }
}

impl GlobImporter {
    /// How many bindings were generated so far.
    pub closed spec fn counter(&self) -> nat {
        self.id_counter as nat
    }

    /// The directory prefix that wildcard sources are resolved under.
    pub closed spec fn anchor(&self) -> Seq<char> {
        anchor(self.cwd@, self.file_name@)
    }

    /// Whether an import names a set of files: its source holds exactly one `*`.
    pub fn is_valid_wildcard_import(decl: &ImportDecl) -> (r: bool)
        ensures
            r == is_wildcard(decl.src@),
    {
        is_wildcard_source(decl.src.as_str())
    }

    /// Takes the next generated binding: the counter goes up by one.
    pub fn next_variable_id(&mut self) -> (r: String)
        requires
            old(self).counter() < usize::MAX,
        ensures
            final(self).counter() == old(self).counter() + 1,
            final(self).anchor() == old(self).anchor(),
            r@ == synthetic_name(final(self).counter()),
    {
        self.id_counter = self.id_counter + 1;
        synthetic_identifier(self.id_counter)
    }

    /// Expands a wildcard import bound to `local` over the paths found for its source `src`
    /// under `prefix`, each path being what the file search gave (nothing where an entry
    /// could not be read).
    pub fn expand_paths(
        &mut self,
        local: String,
        src: &str,
        prefix: &str,
        matcher: &CaptureRegex,
        paths: &Vec<Option<String>>,
    ) -> (r: Result<Vec<ModuleItem>, TransformError>)
        requires
            star_count(src@) > 0,
            matcher.source() == capture_source(src@),
        ensures
            final(self).anchor() == old(self).anchor(),
            match expansion_outcome(prefix@, src@, paths@, old(self).counter()) {
                Ok(es) => (r matches Ok(seg) && is_expansion(seg@, local@, es, old(self).counter())
                    && final(self).counter() == old(self).counter() + es.len()),
                Err(e) => r == Err::<Vec<ModuleItem>, TransformError>(e),
            },
    {
        let ghost c0 = self.counter();
        let mut items: Vec<ModuleItem> = Vec::new();
        let mut props: Vec<KeyValue> = Vec::new();
        let ghost mut es: Seq<Entry> = Seq::empty();
        let mut i: usize = 0;
        assert(paths@.take(0) =~= Seq::<Option<String>>::empty());
        while i < paths.len()
            invariant
                i <= paths@.len(),
                self.anchor() == old(self).anchor(),
                c0 == old(self).counter(),
                matcher.source() == capture_source(src@),
                expansion_outcome(prefix@, src@, paths@.take(i as int), c0) == Ok::<
                    Seq<Entry>,
                    TransformError,
                >(es),
                es.len() == i,
                self.counter() == c0 + i,
                items@.len() == i,
                props@.len() == i,
                forall|k: int|
                    0 <= k < i ==> is_default_import(
                        #[trigger] items@[k],
                        synthetic_name((c0 + k + 1) as nat),
                        es[k].0,
                    ),
                forall|k: int|
                    0 <= k < i ==> (#[trigger] props@[k]).key@ == es[k].1 && props@[k].value@
                        == synthetic_name((c0 + k + 1) as nat),
            decreases paths@.len() - i,
        {
            proof {
                assert(paths@.take(i + 1).drop_last() =~= paths@.take(i as int));
                assert(paths@.take(i + 1).last() == paths@[i as int]);
            }
            let path = match &paths[i] {
                Some(p) => p,
                None => {
                    proof {
                        lemma_outcome_error_stays(prefix@, src@, paths@, c0, i + 1);
                    }
                    return Err(TransformError::Filesystem);
                },
            };
            let fragment = match matcher.capture(path.as_str()) {
                Some(f) => f,
                None => {
                    proof {
                        lemma_outcome_error_stays(prefix@, src@, paths@, c0, i + 1);
                    }
                    return Err(TransformError::InternalConsistency);
                },
            };
            let import_src = match relative_import(prefix, path.as_str()) {
                Some(s) => s,
                None => {
                    proof {
                        lemma_outcome_error_stays(prefix@, src@, paths@, c0, i + 1);
                    }
                    return Err(TransformError::InternalConsistency);
                },
            };
            let key = create_valid_property_name(fragment.as_str());
            assert(entry_of(prefix@, src@, path@) == Some::<Entry>((import_src@, key@)));
            if self.id_counter == usize::MAX {
                proof {
                    lemma_outcome_error_stays(prefix@, src@, paths@, c0, i + 1);
                }
                return Err(TransformError::CounterExhausted);
            }
            let id = self.next_variable_id();
            let mut specifiers: Vec<Specifier> = Vec::new();
            specifiers.push(Specifier::Default(id.clone()));
            let item = ModuleItem::Import(ImportDecl { specifiers, src: import_src });
            items.push(item);
            props.push(KeyValue { key, value: id });
            proof {
                es = es.push((import_src@, key@));
                assert(items@[i as int] == item);
            }
            i = i + 1;
        }
        assert(paths@.take(i as int) =~= paths@);
        let ghost n = items@.len();
        let obj = ModuleItem::Const(ObjectConst { name: local, props });
        items.push(obj);
        assert(items@[n as int] == obj);
        Ok(items)
    }

    /// Replaces one wildcard import by its expansion.
    fn split_wildcard_import(&mut self, decl: ImportDecl) -> (r: Result<Vec<ModuleItem>, TransformError>)
        requires
            is_wildcard(decl.src@),
        ensures
            final(self).anchor() == old(self).anchor(),
            default_binding(decl) is None ==> r == Err::<Vec<ModuleItem>, TransformError>(
                TransformError::UnsupportedSpecifier,
            ),
            r == Err::<Vec<ModuleItem>, TransformError>(TransformError::UnsupportedSpecifier)
                ==> default_binding(decl) is None,
            r matches Ok(seg) ==> expanded_by(
                seg@,
                decl,
                old(self).counter(),
                final(self).counter(),
                old(self).anchor(),
            ),
            default_binding(decl) is Some && !regex_compiles(capture_source(decl.src@)) ==> r
                == Err::<Vec<ModuleItem>, TransformError>(TransformError::InternalConsistency),
            default_binding(decl) is Some && regex_compiles(capture_source(decl.src@))
                && !glob_pattern_valid(old(self).anchor() + decl.src@) ==> r == Err::<
                Vec<ModuleItem>,
                TransformError,
            >(TransformError::Filesystem),
            !searchable(decl, old(self).anchor()) ==> final(self).counter() == old(self).counter(),
    {
        if decl.specifiers.len() != 1 {
            return Err(TransformError::UnsupportedSpecifier);
        }
        let local = match &decl.specifiers[0] {
            Specifier::Default(l) => l.clone(),
            _ => {
                return Err(TransformError::UnsupportedSpecifier);
            },
        };
        let src = &decl.src;
        let matcher = match CaptureRegex::for_source(src.as_str()) {
            Some(m) => m,
            None => {
                return Err(TransformError::InternalConsistency);
            },
        };
        let prefix = anchor_prefix(self.cwd.as_str(), self.file_name.as_str());
        let mut pattern = prefix.clone();
        pattern.append(src.as_str());
        assert(pattern@ == self.anchor() + decl.src@);
        let paths = match glob_paths(pattern.as_str()) {
            Some(p) => p,
            None => {
                return Err(TransformError::Filesystem);
            },
        };
        let ghost c0 = self.counter();
        let r = self.expand_paths(local, src.as_str(), prefix.as_str(), &matcher, &paths);
        proof {
            assert(default_binding(decl) == Some(local@));
            match expansion_outcome(prefix@, src@, paths@, c0) {
                Ok(es) => {
                    assert(is_expansion(r->Ok_0@, local@, es, c0));
                    assert(self.counter() == c0 + es.len());
                    assert(default_binding(decl)->0 == local@);
                    assert(is_expansion(r->Ok_0@, default_binding(decl)->0, es, c0));
                    lemma_outcome_entries(prefix@, src@, paths@, c0);
                    assert(expanded_by(r->Ok_0@, decl, c0, self.counter(), self.anchor()));
                },
                Err(e) => {
                    lemma_outcome_error_kind(prefix@, src@, paths@, c0);
                },
            }
        }
        r
    }

    /// Rewrites a module body: each wildcard import is replaced, where it stood, by one default
    /// import per path found for it and the lookup object; every other item stays as it is.
    pub fn fold_module(&mut self, body: Vec<ModuleItem>) -> (r: Result<Vec<ModuleItem>, TransformError>)
        ensures
            final(self).anchor() == old(self).anchor(),
            r matches Ok(out) ==> rewritten_by(
                body@,
                out@,
                old(self).counter(),
                final(self).counter(),
                old(self).anchor(),
            ),
            r == Err::<Vec<ModuleItem>, TransformError>(TransformError::UnsupportedSpecifier)
                ==> has_unsupported_wildcard(body@),
            has_unsupported_wildcard(body@) ==> r is Err,
            has_invalid_pattern(body@, old(self).anchor()) ==> r is Err,
            first_wildcard(body@) matches Some(d) && default_binding(d) is None ==> r == Err::<
                Vec<ModuleItem>,
                TransformError,
            >(TransformError::UnsupportedSpecifier),
            first_wildcard(body@) matches Some(d) && default_binding(d) is Some && !regex_compiles(
                capture_source(d.src@),
            ) ==> r == Err::<Vec<ModuleItem>, TransformError>(TransformError::InternalConsistency),
            first_wildcard(body@) matches Some(d) && default_binding(d) is Some && regex_compiles(
                capture_source(d.src@),
            ) && !glob_pattern_valid(old(self).anchor() + d.src@) ==> r == Err::<
                Vec<ModuleItem>,
                TransformError,
            >(TransformError::Filesystem),
            (forall|i: int| 0 <= i < body@.len() ==> !is_wildcard_item(#[trigger] body@[i]))
                ==> (r matches Ok(out) && out@ == body@),
    {
        let ghost orig = body@;
        let ghost c0 = self.counter();
        let ghost a0 = self.anchor();
        let mut rest = body;
        let mut out: Vec<ModuleItem> = Vec::new();
        let ghost mut ls: Seq<Seq<Entry>> = Seq::empty();
        let n = rest.len();
        let mut i: usize = 0;
        assert(orig.take(0) =~= Seq::<ModuleItem>::empty());
        assert(orig.skip(0) =~= orig);
        while i < n
            invariant
                n == orig.len(),
                i <= n,
                rest@ == orig.skip(i as int),
                orig == body@,
                self.anchor() == old(self).anchor(),
                c0 == old(self).counter(),
                a0 == self.anchor(),
                rewritten(orig.take(i as int), out@, ls, c0, a0),
                forall|j: int|
                    0 <= j < i && is_wildcard_item(#[trigger] orig[j]) ==> match orig[j] {
                        ModuleItem::Import(d) => searchable(d, a0),
                        _ => true,
                    },
                self.counter() == c0 + total(ls),
                (forall|j: int| 0 <= j < orig.len() ==> !is_wildcard_item(#[trigger] orig[j]))
                    ==> out@ == orig.take(i as int),
            decreases n - i,
        {
            let item = rest.remove(0);
            proof {
                assert(item == orig[i as int]);
                assert(rest@ =~= orig.skip(i + 1));
                assert(orig.take(i + 1).drop_last() =~= orig.take(i as int));
                assert(orig.take(i + 1).last() == orig[i as int]);
            }
            let wild = match &item {
                ModuleItem::Import(d) => Self::is_valid_wildcard_import(d),
                _ => false,
            };
            let ghost it = item;
            if wild {
                assert(is_wildcard_item(it));
                match item {
                    ModuleItem::Import(d) => {
                        let ghost before = out@;
                        let ghost cb = self.counter();
                        let ghost dd = d;
                        match self.split_wildcard_import(d) {
                            Ok(seg) => {
                                let ghost es = choose|es: Seq<Entry>|
                                    is_expansion(seg@, default_binding(dd)->0, es, cb)
                                        && self.counter() == cb + es.len()
                                        && found_under(a0, dd.src@, es);
                                let ghost segv = seg@;
                                let mut seg = seg;
                                out.append(&mut seg);
                                proof {
                                    let ls2 = ls.push(es);
                                    assert(ls2.drop_last() =~= ls);
                                    assert(ls2.last() == es);
                                    assert(out@.skip(out@.len() - (es.len() + 1)) =~= segv);
                                    assert(out@.take(out@.len() - (es.len() + 1)) =~= before);
                                    ls = ls2;
                                    assert(searchable(dd, a0));
                                    assert(rewritten(orig.take(i + 1), out@, ls, c0, a0));
                                }
                            },
                            Err(e) => {
                                proof {
                                    assert(is_wildcard_item(orig[i as int]));
                                    assert(it == ModuleItem::Import(dd));
                                    if e == TransformError::UnsupportedSpecifier {
                                        assert(default_binding(dd) is None);
                                        assert(is_wildcard_item(orig[i as int]) && match orig[i as int] {
                                            ModuleItem::Import(d) => default_binding(d) is None,
                                            _ => false,
                                        });
                                        assert(has_unsupported_wildcard(orig));
                                    }
                                    lemma_first_wildcard(orig);
                                    if let Some(d) = first_wildcard(orig) {
                                        let m = choose|m: int|
                                            is_first_wildcard(orig, m) && orig[m] == ModuleItem::Import(d);
                                        if m < i {
                                            assert(searchable(d, a0));
                                        } else if m > i {
                                            assert(!is_wildcard_item(orig[i as int]));
                                        }
                                    }
                                }
                                return Err(e);
                            },
                        }
                    },
                    _ => {},
                }
            } else {
                let ghost before = out@;
                out.push(item);
                proof {
                    assert(out@.drop_last() =~= before);
                    assert(orig.take(i + 1) =~= orig.take(i as int).push(orig[i as int]));
                }
            }
            i = i + 1;
        }
        assert(orig.take(n as int) =~= orig);
        assert(rewritten(orig, out@, ls, c0, a0));
        assert(rewritten_by(orig, out@, c0, self.counter(), a0));
        proof {
            lemma_first_wildcard(orig);
            if let Some(d) = first_wildcard(orig) {
                let m = choose|m: int| is_first_wildcard(orig, m) && orig[m] == ModuleItem::Import(d);
                assert(searchable(d, a0));
            }
            if has_unsupported_wildcard(orig) {
                let k = choose|k: int|
                    0 <= k < orig.len() && is_wildcard_item(#[trigger] orig[k]) && match orig[k] {
                        ModuleItem::Import(d) => default_binding(d) is None,
                        _ => false,
                    };
                assert(is_wildcard_item(orig[k]));
            }
            if has_invalid_pattern(orig, a0) {
                let k = choose|k: int|
                    0 <= k < orig.len() && is_wildcard_item(#[trigger] orig[k]) && match orig[k] {
                        ModuleItem::Import(d) => !regex_compiles(capture_source(d.src@))
                            || !glob_pattern_valid(a0 + d.src@),
                        _ => false,
                    };
                assert(is_wildcard_item(orig[k]));
            }
        }
        Ok(out)
    }
}

proof fn lemma_outcome_entries(prefix: Seq<char>, src: Seq<char>, paths: Seq<Option<String>>, c: nat)
    ensures
        expansion_outcome(prefix, src, paths, c) matches Ok(es) ==> found_under(prefix, src, es),
    decreases paths.len(),
{
    if paths.len() > 0 {
        lemma_outcome_entries(prefix, src, paths.drop_last(), c);
        if let Ok(es) = expansion_outcome(prefix, src, paths, c) {
            let pre = expansion_outcome(prefix, src, paths.drop_last(), c)->Ok_0;
            assert(es == pre.push(es.last()));
            assert forall|k: int| 0 <= k < es.len() implies made_from_path(prefix, src, #[trigger] es[k]) by {
                if k < pre.len() {
                    assert(es[k] == pre[k]);
                } else {
                    let p = paths.last()->Some_0@;
                    assert(entry_of(prefix, src, p) == Some(es[k]));
                }
            }
        }
    }
}

proof fn lemma_outcome_error_stays(
    prefix: Seq<char>,
    src: Seq<char>,
    paths: Seq<Option<String>>,
    c: nat,
    i: int,
)
    requires
        0 <= i <= paths.len(),
        expansion_outcome(prefix, src, paths.take(i), c) is Err,
    ensures
        expansion_outcome(prefix, src, paths, c) == expansion_outcome(prefix, src, paths.take(i), c),
    decreases paths.len() - i,
{
    if i < paths.len() {
        assert(paths.take(i + 1).drop_last() =~= paths.take(i));
        lemma_outcome_error_stays(prefix, src, paths, c, i + 1);
    } else {
        assert(paths.take(i) =~= paths);
    }
}

proof fn lemma_outcome_error_kind(prefix: Seq<char>, src: Seq<char>, paths: Seq<Option<String>>, c: nat)
    ensures
        expansion_outcome(prefix, src, paths, c) != Err::<Seq<Entry>, TransformError>(
            TransformError::UnsupportedSpecifier,
        ),

    decreases paths.len(),
{
    if paths.len() > 0 {
        lemma_outcome_error_kind(prefix, src, paths.drop_last(), c);
    }
}

} // verus!
