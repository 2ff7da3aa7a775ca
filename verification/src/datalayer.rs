//! Objects stored one per file: each kind of object under a directory named
//! by its key, each object in a file named by its uuid. Reading, writing
//! and deleting the files is left to the caller.
use vstd::prelude::*;
use crate::options::{or_default, Config};
use crate::text::concat;

verus! {

/// An object that can be stored: its kind has a key, and each object a
/// uuid.
pub trait FdoObject {
    /// The key of the object's kind.
    spec fn key_spec() -> Seq<char>;

    /// The object's uuid.
    spec fn uuid_spec(&self) -> Seq<char>;

    fn key() -> (r: &'static str)
        ensures
            r@ == Self::key_spec(),
    ;

    fn uuid(&self) -> (r: &str)
        ensures
            r@ == self.uuid_spec(),
    ;
}

/// `{data directory}/{key}/{uuid}.bin`.
pub open spec fn object_file_spec(data_directory: Seq<char>, key: Seq<char>, uuid: Seq<char>) -> Seq<
    char,
> {
    data_directory + "/"@ + key + "/"@ + uuid + ".bin"@
}

/// The file that holds the object of kind `F` with the given uuid.
pub fn object_file<F: FdoObject>(uuid: &str, config: &Config) -> (r: String)
    ensures
        r@ == object_file_spec(
            or_default(config@.data_directory, "./data"@),
            F::key_spec(),
            uuid@,
        ),
{
    let a = concat(config.data_directory(), "/");
    let b = concat(a.as_str(), F::key());
    let c = concat(b.as_str(), "/");
    let d = concat(c.as_str(), uuid);
    concat(d.as_str(), ".bin")
}

/// The file that holds `obj`, which saving writes and removing deletes.
pub fn file_of<F: FdoObject>(obj: &F, config: &Config) -> (r: String)
    ensures
        r@ == object_file_spec(
            or_default(config@.data_directory, "./data"@),
            F::key_spec(),
            obj.uuid_spec(),
        ),
{
    object_file::<F>(obj.uuid(), config)
}

} // verus!
