//! Resolution of a whole album, image by image, in declared order, stopping
//! at the first failure.

use vstd::prelude::*;
use crate::album::{Album, FailureModel, Image, ParameterSet, ResolveError, UnitModel};
use crate::catalog::{default_name, lookup, resolve_set, Catalog};
use crate::decimal::{decimal, get_max_length, pad_left, padded, to_decimal};
use crate::path::{contains_nul, has_nul, join_path, joined};

verus! {

/// The width of the position prefix: the digit count of the number of images.
pub open spec fn width_of(album: Album) -> nat {
    decimal(album.images.len() as nat).len()
}

/// The set that an image is resolved against: the one it names, else `"default"`.
pub open spec fn effective_name(image: Image) -> Seq<char> {
    match image.set_name() {
        Some(n) => n,
        None => default_name(),
    }
}

/// The output file name for the image at 1-based `position`.
pub open spec fn output_name(position: nat, width: nat, filename: Seq<char>) -> Seq<char> {
    padded(decimal(position), width) + seq!['_'] + filename
}

/// What resolving the image at index `i` alone gives.
pub open spec fn image_outcome(album: Album, root: Seq<char>, i: int) -> Result<UnitModel, FailureModel> {
    let image = album.images@[i];
    let name = effective_name(image);
    match resolve_set(album.declared_sets(), name) {
        None => Err(FailureModel::UnknownSet(name)),
        Some(ops) => {
            let input = joined(album.base@, image.filename@);
            let output = joined(root, output_name((i + 1) as nat, width_of(album), image.filename@));
            if has_nul(input) {
                Err(FailureModel::PathEncoding(input))
            } else if has_nul(output) {
                Err(FailureModel::PathEncoding(output))
            } else {
                Ok(UnitModel { input, output, operations: ops })
            }
        },
    }
}

/// Resolution of the first `n` images: all their units, or the first failure.
pub open spec fn resolve_prefix(album: Album, root: Seq<char>, n: nat) -> Result<Seq<UnitModel>, FailureModel>
    decreases n,
{
    if n == 0 {
        Ok(Seq::empty())
    } else {
        match resolve_prefix(album, root, (n - 1) as nat) {
            Err(e) => Err(e),
            Ok(units) => match image_outcome(album, root, n - 1) {
                Err(e) => Err(e),
                Ok(u) => Ok(units.push(u)),
            },
        }
    }
}

/// Resolution of the whole album with outputs under `root`.
pub open spec fn resolved(album: Album, root: Seq<char>) -> Result<Seq<UnitModel>, FailureModel> {
    resolve_prefix(album, root, album.images.len() as nat)
}

/// The models of a sequence of resolved units.
pub open spec fn models(v: Seq<ParameterSet>) -> Seq<UnitModel> {
    Seq::new(v.len(), |i: int| v[i].model())
}

proof fn lemma_failure_persists(album: Album, root: Seq<char>, n: nat, m: nat)
    requires
        n <= m,
        resolve_prefix(album, root, n) is Err,
    ensures
        resolve_prefix(album, root, m) == resolve_prefix(album, root, n),
    decreases m - n,
{
    if n < m {
        lemma_failure_persists(album, root, n, (m - 1) as nat);
    }
}

/// Resolves every image of `album`, in order, into its input path, output
/// path under `out_base` and operations; fails with the first image's failure.
/// An image fails when its set is unknown, or else when its input or output
/// path holds a NUL character, which no file system path can carry.
pub fn prepare_parameters(album: &Album, out_base: &str) -> (r: Result<Vec<ParameterSet>, ResolveError>)
    ensures
        match r {
            Ok(units) => resolved(*album, out_base@) == Ok::<Seq<UnitModel>, FailureModel>(models(units@)),
            Err(e) => resolved(*album, out_base@) == Err::<Seq<UnitModel>, FailureModel>(e.model()),
        },
{
    let catalog = Catalog::new(&album.transformations);
    let count = album.images.len();
    let width = get_max_length(count);
    let mut units: Vec<ParameterSet> = Vec::new();
    let mut i: usize = 0;
    assert(models(units@) =~= Seq::<UnitModel>::empty());
    while i < count
        invariant
            count == album.images.len(),
            i <= count,
            width == width_of(*album),
            forall|name: Seq<char>| #[trigger] lookup(catalog@, name) == resolve_set(album.declared_sets(), name),
            resolve_prefix(*album, out_base@, i as nat) == Ok::<Seq<UnitModel>, FailureModel>(models(units@)),
        decreases count - i,
    {
        proof { reveal_strlit("default"); reveal_strlit("_"); }
        let image = &album.images[i];
        let name = match &image.transformations {
            Some(n) => n.clone(),
            None => String::from_str("default"),
        };
        assert(name@ =~= effective_name(*image));
        let ops = match catalog.resolve(&name) {
            Ok(ops) => ops,
            Err(e) => {
                proof { lemma_failure_persists(*album, out_base@, (i + 1) as nat, count as nat); }
                return Err(e);
            },
        };
        let input = join_path(album.base.as_str(), image.to_string().as_str());
        let mut seg = pad_left(to_decimal(i + 1), width);
        seg.append("_");
        seg.append(image.filename.as_str());
        assert(seg@ =~= output_name((i + 1) as nat, width_of(*album), image.filename@));
        let output = join_path(out_base, seg.as_str());
        if contains_nul(input.as_str()) {
            proof { lemma_failure_persists(*album, out_base@, (i + 1) as nat, count as nat); }
            return Err(ResolveError::PathEncodingError(input));
        }
        if contains_nul(output.as_str()) {
            proof { lemma_failure_persists(*album, out_base@, (i + 1) as nat, count as nat); }
            return Err(ResolveError::PathEncodingError(output));
        }
        let unit = ParameterSet { input, output, transformations: ops };
        let ghost before = units@;
        units.push(unit);
        assert(models(units@) =~= models(before).push(unit.model()));
        i = i + 1;
    }
    Ok(units)
}

} // verus!
