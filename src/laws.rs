//! Properties of album resolution as a whole.

use vstd::prelude::*;
use crate::album::{Album, FailureModel, UnitModel};
use crate::catalog::{default_name, default_operations, lookup, resolve_set};
use crate::decimal::{decimal, lemma_decimal_chars, lemma_decimal_len_positive, lemma_padded_position, padded, parse_decimal, zeros};
use crate::path::{has_nul, joined, lemma_joined_no_nul};
use crate::resolve::{effective_name, image_outcome, output_name, resolve_prefix, resolved, width_of};

verus! {

/// A successful resolution of the first `n` images has one unit per image,
/// each the outcome of that image alone.
pub proof fn lemma_prefix_units(album: Album, root: Seq<char>, n: nat)
    requires
        resolve_prefix(album, root, n) is Ok,
    ensures
        resolve_prefix(album, root, n)->Ok_0.len() == n,
        forall|i: int| 0 <= i < n ==> image_outcome(album, root, i) == Ok::<UnitModel, FailureModel>(
            #[trigger] resolve_prefix(album, root, n)->Ok_0[i],
        ),
    decreases n,
{
    if n > 0 {
        lemma_prefix_units(album, root, (n - 1) as nat);
        let us = resolve_prefix(album, root, (n - 1) as nat)->Ok_0;
        assert(resolve_prefix(album, root, n)->Ok_0 == us.push(image_outcome(album, root, n - 1)->Ok_0));
    }
}

proof fn lemma_prefix_ok(album: Album, root: Seq<char>, n: nat)
    requires
        forall|i: int| 0 <= i < n ==> (#[trigger] image_outcome(album, root, i)) is Ok,
    ensures
        resolve_prefix(album, root, n) is Ok,
    decreases n,
{
    if n > 0 {
        lemma_prefix_ok(album, root, (n - 1) as nat);
        assert(image_outcome(album, root, n - 1) is Ok);
    }
}

proof fn lemma_prefix_first_failure(album: Album, root: Seq<char>, i: nat, n: nat)
    requires
        i < n,
        forall|j: int| 0 <= j < i ==> (#[trigger] image_outcome(album, root, j)) is Ok,
        image_outcome(album, root, i as int) is Err,
    ensures
        resolve_prefix(album, root, n) == Err::<Seq<UnitModel>, FailureModel>(image_outcome(album, root, i as int)->Err_0),
    decreases n,
{
    if n > i + 1 {
        lemma_prefix_first_failure(album, root, i, (n - 1) as nat);
    } else {
        lemma_prefix_ok(album, root, i);
    }
}

proof fn lemma_padded_chars(n: nat, width: nat)
    ensures
        padded(decimal(n), width).len() >= 1,
        forall|k: int| 0 <= k < padded(decimal(n), width).len() ==> #[trigger] padded(decimal(n), width)[k] != '\0'
            && padded(decimal(n), width)[k] != '/',
{
    lemma_decimal_chars(n);
    lemma_decimal_len_positive(n);
    let d = decimal(n);
    if d.len() < width {
        let z = zeros((width - d.len()) as nat);
        assert forall|k: int| 0 <= k < padded(d, width).len() implies #[trigger] padded(d, width)[k] != '\0'
            && padded(d, width)[k] != '/' by {
            if k >= z.len() {
                assert(padded(d, width)[k] == d[k - z.len()]);
            }
        }
    }
}

proof fn lemma_output_name_chars(position: nat, width: nat, filename: Seq<char>)
    requires
        !has_nul(filename),
    ensures
        !has_nul(output_name(position, width, filename)),
        output_name(position, width, filename).len() > 0,
        output_name(position, width, filename)[0] != '/',
{
    lemma_padded_chars(position, width);
    let p = padded(decimal(position), width);
    let s = output_name(position, width, filename);
    assert forall|k: int| 0 <= k < s.len() implies s[k] != '\0' by {
        if k < p.len() {
            assert(s[k] == p[k]);
        } else if k > p.len() {
            assert(s[k] == filename[k - p.len() - 1]);
        }
    }
    assert(s[0] == p[0]);
}

/// When every image names a set that the album declares, or names none, and
/// no path involved holds a NUL, resolution succeeds with one unit per image.
pub proof fn lemma_known_sets_resolve(album: Album, root: Seq<char>)
    requires
        forall|i: int| 0 <= i < album.images.len() ==> match (#[trigger] album.images@[i]).set_name() {
            Some(n) => lookup(album.declared_sets(), n) is Some,
            None => true,
        },
        !has_nul(album.base@),
        !has_nul(root),
        forall|i: int| 0 <= i < album.images.len() ==> !has_nul((#[trigger] album.images@[i]).filename@),
    ensures
        resolved(album, root) is Ok,
        resolved(album, root)->Ok_0.len() == album.images.len(),
{
    let n = album.images.len() as nat;
    assert forall|i: int| 0 <= i < n implies (#[trigger] image_outcome(album, root, i)) is Ok by {
        let image = album.images@[i];
        assert(resolve_set(album.declared_sets(), effective_name(image)) is Some);
        lemma_joined_no_nul(album.base@, image.filename@);
        lemma_output_name_chars((i + 1) as nat, width_of(album), image.filename@);
        lemma_joined_no_nul(root, output_name((i + 1) as nat, width_of(album), image.filename@));
    }
    lemma_prefix_ok(album, root, n);
    lemma_prefix_units(album, root, n);
}

/// When the album declares no `"default"` set, every image that names no set
/// gets the built-in default operations.
pub proof fn lemma_default_synthesized(album: Album, root: Seq<char>, i: int)
    requires
        lookup(album.declared_sets(), default_name()) is None,
        0 <= i < album.images.len(),
        album.images@[i].set_name() is None,
        resolved(album, root) is Ok,
    ensures
        resolved(album, root)->Ok_0[i].operations == default_operations(),
{
    lemma_prefix_units(album, root, album.images.len() as nat);
}

/// An image naming a set that the catalog lacks makes the whole resolution
/// fail, with no units; if every earlier image resolves, the failure names
/// that set.
pub proof fn lemma_unknown_set_fails(album: Album, root: Seq<char>, i: int)
    requires
        0 <= i < album.images.len(),
        resolve_set(album.declared_sets(), effective_name(album.images@[i])) is None,
    ensures
        resolved(album, root) is Err,
        (forall|j: int| 0 <= j < i ==> (#[trigger] image_outcome(album, root, j)) is Ok) ==> resolved(album, root)
            == Err::<Seq<UnitModel>, FailureModel>(FailureModel::UnknownSet(effective_name(album.images@[i]))),
{
    let n = album.images.len() as nat;
    assert(image_outcome(album, root, i) is Err);
    if resolved(album, root) is Ok {
        lemma_prefix_units(album, root, n);
        let us = resolve_prefix(album, root, n)->Ok_0;
        assert(image_outcome(album, root, i) == Ok::<UnitModel, FailureModel>(us[i]));
    }
    if forall|j: int| 0 <= j < i ==> (#[trigger] image_outcome(album, root, j)) is Ok {
        lemma_prefix_first_failure(album, root, i as nat, n);
    }
}

/// The output paths of one resolution are pairwise distinct, whatever the
/// file names.
pub proof fn lemma_outputs_distinct(album: Album, root: Seq<char>)
    requires
        resolved(album, root) is Ok,
    ensures
        forall|i: int, j: int|
            0 <= i < album.images.len() && 0 <= j < album.images.len() && i != j ==> (#[trigger] resolved(album, root)->Ok_0[i]).output
                != (#[trigger] resolved(album, root)->Ok_0[j]).output,
{
    let n = album.images.len() as nat;
    let us = resolved(album, root)->Ok_0;
    lemma_prefix_units(album, root, n);
    let w = width_of(album);
    let pre = if root.len() == 0 || root.last() == '/' { root } else { root + seq!['/'] };
    assert forall|i: int, j: int|
        0 <= i < n && 0 <= j < n && i != j implies (#[trigger] us[i]).output != (#[trigger] us[j]).output by {
        let fi = album.images@[i].filename@;
        let fj = album.images@[j].filename@;
        let si = output_name((i + 1) as nat, w, fi);
        let sj = output_name((j + 1) as nat, w, fj);
        assert(image_outcome(album, root, i) == Ok::<UnitModel, FailureModel>(us[i]));
        assert(image_outcome(album, root, j) == Ok::<UnitModel, FailureModel>(us[j]));
        lemma_padded_chars((i + 1) as nat, w);
        lemma_padded_chars((j + 1) as nat, w);
        let pi = padded(decimal((i + 1) as nat), w);
        let pj = padded(decimal((j + 1) as nat), w);
        assert(si[0] == pi[0]);
        assert(sj[0] == pj[0]);
        assert(us[i].output =~= pre + si);
        assert(us[j].output =~= pre + sj);
        lemma_padded_position(n, (i + 1) as nat);
        lemma_padded_position(n, (j + 1) as nat);
        if us[i].output == us[j].output {
            assert(si =~= (pre + si).subrange(pre.len() as int, (pre + si).len() as int));
            assert(sj =~= (pre + sj).subrange(pre.len() as int, (pre + sj).len() as int));
            assert(pi =~= si.subrange(0, w as int));
            assert(pj =~= sj.subrange(0, w as int));
            assert(parse_decimal(pi) == parse_decimal(pj));
        }
    }
}

} // verus!
