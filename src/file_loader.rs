use vstd::prelude::*;
use vstd::utf8::encode_utf8;

use crate::data_importer::{
    decoded_chunks,
    png_pixels,
    BinaryFileReader,
    ConsumableType,
    DataReader,
    PNGFileReader,
};
use crate::data_set::{ClassifiedData, DatasetLoader, Datum};

verus! {

/// The UTF-8 bytes of `.png`.
pub open spec fn png_suffix() -> Seq<u8> {
    seq![46u8, 112u8, 110u8, 103u8]
}

/// The UTF-8 bytes of `.json`.
pub open spec fn json_suffix() -> Seq<u8> {
    seq![46u8, 106u8, 115u8, 111u8, 110u8]
}

pub open spec fn ends_with(b: Seq<u8>, suffix: Seq<u8>) -> bool {
    &&& b.len() >= suffix.len()
    &&& b.subrange(b.len() - suffix.len(), b.len() as int) == suffix
}

/// `path` names a file with the extension `png`: it ends in `.png`, and the
/// dot is neither its first byte nor the first byte of its last component.
pub open spec fn is_png_path(path: Seq<char>) -> bool {
    let b = encode_utf8(path);
    &&& ends_with(b, png_suffix())
    &&& b.len() > 4
    &&& b[b.len() - 5] != 47u8
}

/// `path` ends in `.json`.
pub open spec fn is_json_path(path: Seq<char>) -> bool {
    ends_with(encode_utf8(path), json_suffix())
}

fn bytes_end_with(b: &[u8], suffix: &[u8]) -> (r: bool)
    ensures
        r == ends_with(b@, suffix@),
{
    if b.len() < suffix.len() {
        return false;
    }
    let off = b.len() - suffix.len();
    let mut i: usize = 0;
    while i < suffix.len()
        invariant
            off + suffix@.len() == b@.len(),
            b@.len() == b.len(),
            i <= suffix@.len(),
            forall|j: int| 0 <= j < i ==> b@[off + j] == suffix@[j],
        decreases suffix.len() - i,
    {
        if b[off + i] != suffix[i] {
            assert(b@.subrange(off as int, b@.len() as int)[i as int] != suffix@[i as int]);
            return false;
        }
        i = i + 1;
    }
    assert(b@.subrange(off as int, b@.len() as int) =~= suffix@);
    true
}

/// Whether `path` names a PNG image, which decides how its file is decoded.
pub fn has_png_extension(path: &str) -> (r: bool)
    ensures
        r == is_png_path(path@),
{
    let b = path.as_bytes();
    let suffix: [u8; 4] = [46, 112, 110, 103];
    assert(suffix@ =~= png_suffix());
    bytes_end_with(b, suffix.as_slice()) && b.len() > 4 && b[b.len() - 5] != 47
}

/// Whether `path` names a JSON manifest.
pub fn has_json_extension(path: &str) -> (r: bool)
    ensures
        r == is_json_path(path@),
{
    let b = path.as_bytes();
    let suffix: [u8; 5] = [46, 106, 115, 111, 110];
    assert(suffix@ =~= json_suffix());
    bytes_end_with(b, suffix.as_slice())
}

/// Why a manifest could not be read.
#[derive(Debug)]
pub enum FileError {
    PathNotFound(String),
    PathNotDirectoryOrFile(String),
    FileNotReadable(String),
    /// The path, and the format it was read as.
    IncorrectFormat(String, String),
}

/// What stands at a path on disk.
#[derive(Clone, Copy, Debug, PartialEq, Eq, Structural)]
pub enum PathKind {
    Missing,
    File,
    Other,
}

/// Decides whether a manifest at `path`, where `kind` stands, can be read:
/// it must be a file whose name ends in `.json`.
pub fn check_manifest(path: &str, kind: PathKind) -> (r: Result<(), FileError>)
    ensures
        kind == PathKind::Missing ==> (r matches Err(FileError::PathNotFound(p)) && p@ == path@),
        kind == PathKind::Other ==> (r matches Err(FileError::PathNotDirectoryOrFile(p)) && p@
            == path@),
        kind == PathKind::File && is_json_path(path@) ==> r is Ok,
        kind == PathKind::File && !is_json_path(path@) ==> (r matches Err(
            FileError::IncorrectFormat(p, f),
        ) && p@ == path@ && f@ == "unknown"@),
{
    match kind {
        PathKind::Missing => Err(FileError::PathNotFound(path.to_owned())),
        PathKind::Other => Err(FileError::PathNotDirectoryOrFile(path.to_owned())),
        PathKind::File => {
            if has_json_extension(path) {
                Ok(())
            } else {
                Err(FileError::IncorrectFormat(path.to_owned(), "unknown".to_owned()))
            }
        },
    }
}

/// One entry of a manifest: a file, relative to the manifest's directory,
/// and the class label of the record it holds.
pub struct DataItem<C> {
    path: String,
    classification: C,
}

impl<C: Copy> DataItem<C> {
    pub closed spec fn location(&self) -> Seq<char> {
        self.path@
    }

    pub closed spec fn class(&self) -> C {
        self.classification
    }

    pub fn new(path: String, classification: C) -> (r: Self)
        ensures
            r.location() == path@,
            r.class() == classification,
    {
        DataItem { path, classification }
    }

    pub fn get_path(&self) -> (r: &String)
        ensures
            r@ == self.location(),
    {
        &self.path
    }

    pub fn get_class(&self) -> (r: C)
        ensures
            r == self.class(),
    {
        self.classification
    }
}

/// The bytes that a record is built from, given the path and the contents
/// of its file: the decoded pixels of a PNG image, the contents themselves
/// otherwise; `None` where an image does not decode.
pub open spec fn record_payload(path: Seq<char>, contents: Seq<u8>) -> Option<Seq<u8>> {
    if is_png_path(path) {
        png_pixels(contents)
    } else {
        Some(contents)
    }
}

proof fn lemma_single_bytes(b: Seq<u8>)
    ensures
        decoded_chunks::<u8, 1>(b) == b,
{
    let d = decoded_chunks::<u8, 1>(b);
    assert forall|k: int| 0 <= k < b.len() implies d[k] == b[k] by {
        assert(b.subrange(k, k + 1)[0] == b[k]);
    }
    assert(d =~= b);
}

/// Decodes the contents of a file into the bytes of one record, choosing the
/// decoder by the file's extension.
pub fn record_bytes(path: &str, contents: &Vec<u8>) -> (r: Option<Vec<u8>>)
    ensures
        match r {
            Some(b) => record_payload(path@, contents@) == Some(b@),
            None => record_payload(path@, contents@) is None,
        },
{
    if has_png_extension(path) {
        match PNGFileReader::new(contents) {
            Ok(reader) => {
                let mut reader = reader;
                let ghost pixels = reader.unread();
                let b = reader.consume::<u8, 1>();
                proof {
                    lemma_single_bytes(pixels);
                }
                Some(b)
            },
            Err(_) => None,
        }
    } else {
        let mut reader = BinaryFileReader::new(contents);
        let b = reader.consume::<u8, 1>();
        proof {
            lemma_single_bytes(contents@);
        }
        Some(b)
    }
}

/// What reading a manifest entry yields: `None` where its file could not be
/// read or does not decode, or where the record type finds no record in the
/// decoded bytes; otherwise the record built from those bytes, carrying the
/// entry's label.
pub open spec fn entry_yields<D: Datum<SIZE>, C: Copy, const SIZE: usize>(
    item: DataItem<C>,
    contents: Option<Vec<u8>>,
    r: Option<ClassifiedData<D, C>>,
) -> bool {
    match contents {
        None => r is None,
        Some(b) => match record_payload(item.location(), b@) {
            None => r is None,
            Some(payload) => match D::from_bytes(payload) {
                None => r is None,
                Some(d) => r matches Some(rec) && rec.datum() == d && rec.class() == item.class(),
            },
        },
    }
}

/// Reads the records that a manifest lists, one entry at a time. Each entry
/// comes with the contents of its file, or `None` where it could not be read.
pub struct FileSystemLoader<D, C, const SIZE: usize> {
    sources: Vec<(DataItem<C>, Option<Vec<u8>>)>,
    current: usize,
    history: Ghost<Seq<Option<ClassifiedData<D, C>>>>,
}

impl<D: Datum<SIZE>, C: Copy, const SIZE: usize> FileSystemLoader<D, C, SIZE> {
    /// The manifest's entries with their files' contents.
    pub closed spec fn entries(&self) -> Seq<(DataItem<C>, Option<Vec<u8>>)> {
        self.sources@
    }

    /// How many entries have been read.
    pub closed spec fn position(&self) -> nat {
        self.current as nat
    }

    /// What the entries read so far have yielded, in order.
    pub closed spec fn yielded(&self) -> Seq<Option<ClassifiedData<D, C>>> {
        self.history@
    }

    /// Every entry read so far has yielded what it may, and no entry past
    /// the end has been read.
    pub open spec fn consistent(&self) -> bool {
        &&& self.position() <= self.entries().len()
        &&& self.yielded().len() == self.position()
        &&& forall|k: int|
            0 <= k < self.position() ==> entry_yields::<D, C, SIZE>(
                #[trigger] self.entries()[k].0,
                self.entries()[k].1,
                self.yielded()[k],
            )
    }

    pub fn new(sources: Vec<(DataItem<C>, Option<Vec<u8>>)>) -> (r: Self)
        ensures
            r.consistent(),
            r.entries() == sources@,
            r.position() == 0,
            r.yielded() == Seq::<Option<ClassifiedData<D, C>>>::empty(),
    {
        FileSystemLoader { sources, current: 0, history: Ghost(Seq::empty()) }
    }

    /// Builds the record of the next entry from its file; an entry whose file
    /// could not be read, does not decode, or holds no record yields `None`.
    pub fn read_next(&mut self) -> (r: Option<ClassifiedData<D, C>>)
        requires
            old(self).position() < old(self).entries().len(),
        ensures
            old(self).consistent() ==> final(self).consistent(),
            final(self).entries() == old(self).entries(),
            final(self).position() == old(self).position() + 1,
            final(self).yielded() == old(self).yielded().push(r),
            entry_yields::<D, C, SIZE>(
                old(self).entries()[old(self).position() as int].0,
                old(self).entries()[old(self).position() as int].1,
                r,
            ),
    {
        let c = self.current;
        let n = self.sources.len();
        assert(c < n);
        self.current = c + 1;
        let entry = &self.sources[c];
        let r = match &entry.1 {
            Some(contents) => match record_bytes(entry.0.path.as_str(), contents) {
                Some(payload) => match D::from(payload) {
                    Some(value) => Some(ClassifiedData::new(value, entry.0.classification)),
                    None => None,
                },
                None => None,
            },
            None => None,
        };
        self.history = Ghost(self.history@.push(r));
        r
    }
}

impl<D: Datum<SIZE>, C: Copy, const SIZE: usize> DatasetLoader<D, C, SIZE> for FileSystemLoader<
    D,
    C,
    SIZE,
> {
    open spec fn remaining(&self) -> nat {
        if self.position() <= self.entries().len() {
            (self.entries().len() - self.position()) as nat
        } else {
            0
        }
    }

    open spec fn emitted(&self) -> Seq<Option<ClassifiedData<D, C>>> {
        self.yielded()
    }

    open spec fn inv(&self) -> bool {
        self.consistent()
    }

    open spec fn permits(&self, k: int, r: Option<ClassifiedData<D, C>>) -> bool {
        0 <= k < self.entries().len() ==> entry_yields::<D, C, SIZE>(self.entries()[k].0, self.entries()[k].1, r)
    }

    fn next(&mut self) -> (r: Option<ClassifiedData<D, C>>)
        ensures
            final(self).entries() == old(self).entries(),
            final(self).position() == old(self).position() + 1,
            entry_yields::<D, C, SIZE>(
                old(self).entries()[old(self).position() as int].0,
                old(self).entries()[old(self).position() as int].1,
                r,
            ),
    {
        self.read_next()
    }

    fn has_next(&self) -> (r: bool) {
        self.current < self.sources.len()
    }
}

} // verus!
