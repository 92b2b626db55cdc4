use vstd::prelude::*;

use crate::ast::ModuleItem;
use crate::ident::{lemma_synthetic_names_distinct, synthetic_name};
use crate::pattern::is_wildcard;
use crate::transform::{
    default_binding_of_import, is_expansion, is_wildcard_item, rewritten, total, Entry,
};

verus! {

/// How many wildcard imports `body` holds.
pub open spec fn wildcard_count(body: Seq<ModuleItem>) -> nat
    decreases body.len(),
{
    if body.len() == 0 {
        0
    } else {
        wildcard_count(body.drop_last()) + if is_wildcard_item(body.last()) {
            1nat
        } else {
            0nat
        }
    }
}

/// A module without wildcard imports comes out as it went in, and nothing is searched for it.
pub proof fn lemma_untouched_module(
    body: Seq<ModuleItem>,
    out: Seq<ModuleItem>,
    ls: Seq<Seq<Entry>>,
    first: nat,
    prefix: Seq<char>,
)
    requires
        rewritten(body, out, ls, first, prefix),
        forall|i: int| 0 <= i < body.len() ==> !is_wildcard_item(#[trigger] body[i]),
    ensures
        out == body,
        ls.len() == 0,
    decreases body.len(),
{
    if body.len() > 0 {
        let d = body.drop_last();
        assert forall|i: int| 0 <= i < d.len() implies !is_wildcard_item(#[trigger] d[i]) by {
            assert(d[i] == body[i]);
        }
        assert(!is_wildcard_item(body[body.len() - 1]));
        lemma_untouched_module(d, out.drop_last(), ls, first, prefix);
        assert(out =~= out.drop_last().push(out.last()));
        assert(body =~= d.push(body.last()));
    }
}

/// Each wildcard import with N matches is replaced by N imports and one declaration, every
/// other item by itself: the output is longer than the input by the number of matches, and
/// one listing is used per wildcard import.
pub proof fn lemma_expanded_length(
    body: Seq<ModuleItem>,
    out: Seq<ModuleItem>,
    ls: Seq<Seq<Entry>>,
    first: nat,
    prefix: Seq<char>,
)
    requires
        rewritten(body, out, ls, first, prefix),
    ensures
        out.len() == body.len() + total(ls),
        ls.len() == wildcard_count(body),
    decreases body.len(),
{
    if body.len() > 0 {
        if is_wildcard_item(body.last()) {
            let n = ls.last().len();
            lemma_expanded_length(
                body.drop_last(),
                out.take(out.len() - (n + 1)),
                ls.drop_last(),
                first,
                prefix,
            );
        } else {
            lemma_expanded_length(body.drop_last(), out.drop_last(), ls, first, prefix);
        }
    }
}

/// The bindings generated within one expansion are pairwise distinct.
pub proof fn lemma_expansion_bindings_distinct(
    seg: Seq<ModuleItem>,
    name: Seq<char>,
    es: Seq<Entry>,
    first: nat,
    j: int,
    k: int,
)
    requires
        is_expansion(seg, name, es, first),
        0 <= j < es.len(),
        0 <= k < es.len(),
        j != k,
    ensures
        default_binding_of_import(seg[j]) != default_binding_of_import(seg[k]),
{
    lemma_synthetic_names_distinct((first + j + 1) as nat, (first + k + 1) as nat);
    assert(seg[j] == seg[j]);
    assert(seg[k] == seg[k]);
}

proof fn lemma_total_grows(ls: Seq<Seq<Entry>>, j1: int, j2: int)
    requires
        0 <= j1 < j2 <= ls.len(),
    ensures
        total(ls.take(j1)) + ls[j1].len() <= total(ls.take(j2)),
    decreases j2,
{
    assert(ls.take(j2).drop_last() =~= ls.take(j2 - 1));
    assert(ls.take(j2).last() == ls[j2 - 1]);
    if j1 < j2 - 1 {
        lemma_total_grows(ls, j1, j2 - 1);
    }
}

/// The binding generated for entry `k` of the `j`-th wildcard import of a module, whose
/// expansions take their numbers one after the other from `first` on.
pub open spec fn module_binding(ls: Seq<Seq<Entry>>, first: nat, j: int, k: int) -> Seq<char> {
    synthetic_name((first + total(ls.take(j)) + k + 1) as nat)
}

/// Generated bindings never repeat within a module: two different entries, of one expansion
/// or of two, are bound to different names.
pub proof fn lemma_module_bindings_distinct(
    ls: Seq<Seq<Entry>>,
    first: nat,
    j1: int,
    k1: int,
    j2: int,
    k2: int,
)
    requires
        0 <= j1 < ls.len(),
        0 <= k1 < ls[j1].len(),
        0 <= j2 < ls.len(),
        0 <= k2 < ls[j2].len(),
        j1 != j2 || k1 != k2,
    ensures
        module_binding(ls, first, j1, k1) != module_binding(ls, first, j2, k2),
{
    if j1 < j2 {
        lemma_total_grows(ls, j1, j2);
    } else if j2 < j1 {
        lemma_total_grows(ls, j2, j1);
    }
    lemma_synthetic_names_distinct(
        (first + total(ls.take(j1)) + k1 + 1) as nat,
        (first + total(ls.take(j2)) + k2 + 1) as nat,
    );
}

proof fn lemma_no_wildcard_left(
    body: Seq<ModuleItem>,
    out: Seq<ModuleItem>,
    ls: Seq<Seq<Entry>>,
    first: nat,
    prefix: Seq<char>,
)
    requires
        rewritten(body, out, ls, first, prefix),
        forall|j: int, k: int|
            0 <= j < ls.len() && 0 <= k < ls[j].len() ==> !is_wildcard(#[trigger] ls[j][k].0),
    ensures
        forall|i: int| 0 <= i < out.len() ==> !is_wildcard_item(#[trigger] out[i]),
    decreases body.len(),
{
    if body.len() > 0 {
        if is_wildcard_item(body.last()) {
            let es = ls.last();
            let n = es.len();
            let pre = ls.drop_last();
            let cut = out.len() - (n + 1);
            assert forall|j: int, k: int|
                0 <= j < pre.len() && 0 <= k < pre[j].len() implies !is_wildcard(
                #[trigger] pre[j][k].0,
            ) by {
                assert(pre[j] == ls[j]);
            }
            lemma_no_wildcard_left(body.drop_last(), out.take(cut), pre, first, prefix);
            let seg = out.skip(cut);
            assert forall|i: int| 0 <= i < out.len() implies !is_wildcard_item(#[trigger] out[i]) by {
                if i < cut {
                    assert(out[i] == out.take(cut)[i]);
                } else {
                    assert(out[i] == seg[i - cut]);
                    if i - cut < n {
                        assert(es[i - cut] == ls[ls.len() - 1][i - cut]);
                        assert(!is_wildcard(ls[ls.len() - 1][i - cut].0));
                    }
                }
            }
        } else {
            lemma_no_wildcard_left(body.drop_last(), out.drop_last(), ls, first, prefix);
            assert forall|i: int| 0 <= i < out.len() implies !is_wildcard_item(#[trigger] out[i]) by {
                if i < out.len() - 1 {
                    assert(out[i] == out.drop_last()[i]);
                }
            }
        }
    }
}

/// Running the rewrite again on its own output changes nothing, as long as no path found
/// in the first run itself holds exactly one `*`.
pub proof fn lemma_second_run_unchanged(
    body: Seq<ModuleItem>,
    out: Seq<ModuleItem>,
    ls: Seq<Seq<Entry>>,
    first: nat,
    prefix: Seq<char>,
    again: Seq<ModuleItem>,
    ls2: Seq<Seq<Entry>>,
    first2: nat,
    prefix2: Seq<char>,
)
    requires
        rewritten(body, out, ls, first, prefix),
        forall|j: int, k: int|
            0 <= j < ls.len() && 0 <= k < ls[j].len() ==> !is_wildcard(#[trigger] ls[j][k].0),
        rewritten(out, again, ls2, first2, prefix2),
    ensures
        again == out,
        ls2.len() == 0,
{
    lemma_no_wildcard_left(body, out, ls, first, prefix);
    lemma_untouched_module(out, again, ls2, first2, prefix2);
}

} // verus!
