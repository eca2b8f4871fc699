//! The album description and the records that resolution produces.

use vstd::prelude::*;

verus! {

/// One image operation, in the order in which it is applied.
#[derive(Clone, Copy, Debug, PartialEq, Eq, Structural)]
pub enum Transformation {
    Size { width: u32, height: u32 },
    Normalize,
    Enhance,
    Unsharp { radius: u32 },
}

/// An image of the album: a file under the album's base directory, and the
/// name of the transformation set to apply (`None`: the default set).
#[derive(Debug, PartialEq, Eq)]
pub struct Image {
    pub filename: String,
    pub transformations: Option<String>,
}

/// A named, ordered list of operations.
#[derive(Debug, PartialEq, Eq)]
pub struct NamedSet {
    pub name: String,
    pub operations: Vec<Transformation>,
}

/// A batch job: the images, in processing order, found under `base`, and the
/// transformation sets they may refer to by name.
#[derive(Debug, PartialEq, Eq)]
pub struct Album {
    pub name: String,
    pub base: String,
    pub transformations: Option<Vec<NamedSet>>,
    pub images: Vec<Image>,
}

/// The fully resolved work for one image.
#[derive(Debug, PartialEq, Eq)]
pub struct ParameterSet {
    pub input: String,
    pub output: String,
    pub transformations: Vec<Transformation>,
}

/// Why an album could not be resolved.
#[derive(Debug, PartialEq, Eq)]
pub enum ResolveError {
    /// An image names a transformation set that the catalog does not hold.
    UnknownTransformationSet(String),
    /// A computed path cannot be handed to the file system.
    PathEncodingError(String),
}

/// A set name and its operations, as values.
pub type SetEntry = (Seq<char>, Seq<Transformation>);

/// The abstract counterpart of a `ParameterSet`.
pub struct UnitModel {
    pub input: Seq<char>,
    pub output: Seq<char>,
    pub operations: Seq<Transformation>,
}

/// The abstract counterpart of a `ResolveError`.
pub enum FailureModel {
    UnknownSet(Seq<char>),
    PathEncoding(Seq<char>),
}

/// The entries of a list of named sets, as values.
pub open spec fn entries_of(sets: Seq<NamedSet>) -> Seq<SetEntry> {
    Seq::new(sets.len(), |i: int| (sets[i].name@, sets[i].operations@))
}

impl Image {
    /// The set name that the image refers to, if any.
    pub open spec fn set_name(&self) -> Option<Seq<char>> {
        match self.transformations {
            Some(n) => Some(n@),
            None => None,
        }
    }

    /// The image's file name.
    pub fn to_string(&self) -> (r: String)
        ensures
            r@ == self.filename@,
    {
        self.filename.clone()
    }
}

impl Album {
    /// The transformation sets the album declares; none when absent.
    pub open spec fn declared_sets(&self) -> Seq<SetEntry> {
        match self.transformations {
            Some(v) => entries_of(v@),
            None => Seq::empty(),
        }
    }
}

impl ParameterSet {
    pub open spec fn model(&self) -> UnitModel {
        UnitModel {
            input: self.input@,
            output: self.output@,
            operations: self.transformations@,
        }
    }
}

impl ResolveError {
    pub open spec fn model(&self) -> FailureModel {
        match self {
            ResolveError::UnknownTransformationSet(n) => FailureModel::UnknownSet(n@),
            ResolveError::PathEncodingError(p) => FailureModel::PathEncoding(p@),
        }
    }
}

/// A copy of a list of operations.
pub fn copy_operations(ops: &Vec<Transformation>) -> (r: Vec<Transformation>)
    ensures
        r@ == ops@,
{
    let mut r: Vec<Transformation> = Vec::new();
    let mut i: usize = 0;
    while i < ops.len()
        invariant
            i <= ops.len(),
            r@ == ops@.subrange(0, i as int),
        decreases ops.len() - i,
    {
        r.push(ops[i]);
        i = i + 1;
    }
    assert(r@ =~= ops@);
    r
}

} // verus!
