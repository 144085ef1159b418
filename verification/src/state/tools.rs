use vstd::prelude::*;

verus! {

/// Carried by every entity the state keeps in a map: a stable unique
/// identifier (a card's source path, a deck's name).
pub trait UID {
    /// The identifier as specifications see it.
    spec fn uid_spec(&self) -> Seq<char>;

    /// The identifier the maps are keyed by.
    fn uid(&self) -> (r: &str)
        ensures
            r@ == self.uid_spec(),
    ;
}

/// Reconciling a freshly derived entity with a previously stored one of the
/// same identity: the incoming entity keeps its content and adopts the
/// stored entity's surviving sub-record.
pub trait Merge<T> {
    fn merge(self, other: &T) -> Self;
}

/// The persistence boundary: something a serialized snapshot can be read
/// from and written to. The library states nothing of these calls; callers
/// supply the implementation and the library works with whatever comes
/// back.
pub trait IO {
    /// Where the snapshot lives, for diagnostics.
    fn path(&self) -> &str;

    /// The stored text, or the reason it could not be read.
    fn read(&self) -> Result<String, std::io::Error>;

    /// Stores the text, or says why it could not be written.
    fn write(&self, content: String) -> Result<(), std::io::Error>;
}

/// The type of `std::io::Error`, declared so that the `IO` boundary can
/// name it; the library never looks inside a value of it.
#[verifier::external_type_specification]
#[verifier::external_body]
pub struct ExIoError(std::io::Error);

} // verus!
