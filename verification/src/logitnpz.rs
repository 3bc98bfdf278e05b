//! Array archives: a zip archive in which each array is one member, named
//! after its key with the extension `.npy` and compressed with zstd.
//!
//! The library works on members as plain values: a name and the bytes of one
//! array in `.npy` form. Turning arrays into such bytes and back is the
//! caller's part.

use std::io::Cursor;
use vstd::prelude::*;
use vstd::string::{StrSliceExecFns, StringExecFns, StringSliceAdditionalSpecFns};
use vstd::utf8::encode_utf8;
use zip::result::ZipError;
use zip::write::SimpleFileOptions;
use zip::{CompressionMethod, ZipArchive, ZipWriter};

verus! {

/// The compression level used where the caller names none.
pub const DEFAULT_COMPRESSION_LEVEL: i64 = 3;

/// The error type of `zip`, carried through as it is.
#[verifier::external_type_specification]
#[verifier::external_body]
pub struct ExZipError(zip::result::ZipError);

/// The error type of `std::io`, carried through as it is.
#[verifier::external_type_specification]
#[verifier::external_body]
pub struct ExIoError(std::io::Error);

/// `std::io::Cursor`, the in-memory reader that an archive is opened on.
#[verifier::external_type_specification]
#[verifier::external_body]
#[verifier::reject_recursive_types(T)]
pub struct ExCursor<T>(std::io::Cursor<T>);

/// `zip::ZipArchive`, an archive opened for reading.
#[verifier::external_type_specification]
#[verifier::external_body]
#[verifier::reject_recursive_types(R)]
pub struct ExZipArchive<R>(zip::ZipArchive<R>);

/// An archive that is being written to memory: a `zip::ZipWriter` over a
/// cursor on a byte vector. The writer is opaque here; what it holds is
/// spoken of through [`staged`].
#[verifier::external_body]
pub struct ArchiveWriter {
    inner: ZipWriter<Cursor<Vec<u8>>>,
}

/// A member as it is staged for writing: its name, its compression level and
/// its data.
pub type Staged = (Seq<char>, int, Seq<u8>);

/// A member as an opened archive has it: none where the member cannot be
/// opened; else its name, and its data where the data can be read.
pub type Entry = Option<(Seq<char>, Option<Seq<u8>>)>;

/// A member as it is read: its name and its data.
pub type Member = (Seq<char>, Seq<u8>);

/// The longest member name, in bytes, that an archive can hold.
pub const NAME_LIMIT: usize = 65535;

/// The longest key, in bytes, whose member name an archive can hold.
pub const KEY_BYTES_LIMIT: usize = 65531;

/// The least compression level that zstd has.
pub const ZSTD_MIN_LEVEL: i64 = -131072;

/// The greatest compression level that zstd has.
pub const ZSTD_MAX_LEVEL: i64 = 22;

/// The members that a writer holds, in the order in which they were started.
pub uninterp spec fn staged(writer: ArchiveWriter) -> Seq<(Seq<char>, int, Seq<u8>)>;

/// Whether a writer that holds `members` takes one more member named `name`,
/// to be compressed with zstd at `level`.
pub uninterp spec fn start_accepted(
    members: Seq<(Seq<char>, int, Seq<u8>)>,
    name: Seq<char>,
    level: int,
) -> bool;

/// Whether a writer that holds `members` takes `data` as the data of the
/// last of them.
pub uninterp spec fn write_accepted(members: Seq<(Seq<char>, int, Seq<u8>)>, data: Seq<u8>) -> bool;

/// The bytes of the archive that holds the given members, each compressed
/// with zstd at its level; none where the archive cannot be finished.
pub uninterp spec fn packed(members: Seq<(Seq<char>, int, Seq<u8>)>) -> Option<Seq<u8>>;

/// The members of an opened archive, in the order of its directory.
pub uninterp spec fn contents(archive: ZipArchive<Cursor<Vec<u8>>>) -> Seq<
    Option<(Seq<char>, Option<Seq<u8>>)>,
>;

/// The members of the archive that `data` holds; none where `data` holds no
/// archive that can be opened.
pub uninterp spec fn unpacked(data: Seq<u8>) -> Option<Seq<Option<(Seq<char>, Option<Seq<u8>>)>>>;

/// Whether `level` is a compression level that zstd has.
pub open spec fn zstd_level(level: int) -> bool {
    ZSTD_MIN_LEVEL <= level <= ZSTD_MAX_LEVEL
}

/// Whether one of `members` is named `name`.
pub open spec fn has_member(members: Seq<Staged>, name: Seq<char>) -> bool {
    exists|i: int| 0 <= i < members.len() && #[trigger] members[i].0 == name
}

/// What went wrong with an archive.
#[derive(Debug)]
pub enum LogitNpzError {
    IoError(std::io::Error),
    ZipError(zip::result::ZipError),
    InvalidFormat(String),
    NumpyNotAvailable,
    PythonError,
}

impl From<std::io::Error> for LogitNpzError {
    fn from(err: std::io::Error) -> (r: LogitNpzError) {
        LogitNpzError::IoError(err)
    }
}

impl vstd::std_specs::convert::FromSpecImpl<std::io::Error> for LogitNpzError {
    open spec fn obeys_from_spec() -> bool {
        true
    }

    open spec fn from_spec(err: std::io::Error) -> LogitNpzError {
        LogitNpzError::IoError(err)
    }
}

impl From<zip::result::ZipError> for LogitNpzError {
    fn from(err: zip::result::ZipError) -> (r: LogitNpzError) {
        LogitNpzError::ZipError(err)
    }
}

impl vstd::std_specs::convert::FromSpecImpl<zip::result::ZipError> for LogitNpzError {
    open spec fn obeys_from_spec() -> bool {
        true
    }

    open spec fn from_spec(err: zip::result::ZipError) -> LogitNpzError {
        LogitNpzError::ZipError(err)
    }
}

/// A writer that holds no member.
///
/// Trusted: `zip::ZipWriter::new` starts an archive without members.
#[verifier::external_body]
fn writer_new() -> (writer: ArchiveWriter)
    ensures
        staged(writer) == Seq::<Staged>::empty(),
{
    ArchiveWriter { inner: ZipWriter::new(Cursor::new(Vec::new())) }
}

/// Starts a member named `name`, to be compressed with zstd at `level`.
///
/// Trusted: whether `zip::ZipWriter::start_file` succeeds depends on what
/// the writer holds, the name and the level alone. Where it succeeds, the
/// archive has one more member, of that name and without data yet. It
/// refuses a name that the archive has already, and a level outside the range
/// that zstd gives (`ZSTD_minCLevel` to `ZSTD_maxCLevel`). A name of more
/// than 65535 bytes is left out: its length does not fit the header.
#[verifier::external_body]
fn writer_start(writer: ArchiveWriter, name: &str, level: i64) -> (r: Result<
    ArchiveWriter,
    ZipError,
>)
    requires
        encode_utf8(name@).len() <= NAME_LIMIT,
    ensures
        r is Ok <==> start_accepted(staged(writer), name@, level as int),
        r is Ok ==> zstd_level(level as int) && !has_member(staged(writer), name@),
        r matches Ok(next) ==> staged(next) == staged(writer).push(
            (name@, level as int, Seq::empty()),
        ),
{
    let mut writer = writer;
    let options = SimpleFileOptions::default().compression_method(
        CompressionMethod::Zstd,
    ).compression_level(Some(level));
    match writer.inner.start_file(name, options) {
        Ok(()) => Ok(writer),
        Err(e) => Err(e),
    }
}

/// Writes `data` as the data of the member started last.
///
/// Trusted: whether `write_all` on a `zip::ZipWriter` succeeds depends on
/// what the writer holds and the bytes alone. Where it succeeds, the bytes
/// written are the data of the member that `start_file` started last.
#[verifier::external_body]
fn writer_write(writer: ArchiveWriter, data: &[u8]) -> (r: Result<ArchiveWriter, std::io::Error>)
    requires
        staged(writer).len() > 0,
        staged(writer).last().2.len() == 0,
    ensures
        r is Ok <==> write_accepted(staged(writer), data@),
        r matches Ok(next) ==> staged(next) == staged(writer).drop_last().push(
            (staged(writer).last().0, staged(writer).last().1, data@),
        ),
{
    let mut writer = writer;
    match std::io::Write::write_all(&mut writer.inner, data) {
        Ok(()) => Ok(writer),
        Err(e) => Err(e),
    }
}

/// Closes the archive and hands out its bytes.
///
/// Trusted: `zip::ZipWriter::finish` writes the directory and returns the
/// cursor, whose vector is the whole archive. Whether it succeeds, and the
/// bytes, depend on the members alone: the crate is built without its `time`
/// feature, so every member carries the same fixed time stamp.
#[verifier::external_body]
fn writer_finish(writer: ArchiveWriter) -> (r: Result<Vec<u8>, ZipError>)
    ensures
        r is Ok <==> packed(staged(writer)) is Some,
        r matches Ok(bytes) ==> packed(staged(writer)) == Some(bytes@),
{
    match writer.inner.finish() {
        Ok(cursor) => Ok(cursor.into_inner()),
        Err(e) => Err(e),
    }
}

/// Opens the archive that `data` holds.
///
/// Trusted: `zip::ZipArchive::new` reads the directory of the archive;
/// whether it succeeds, and what the opened archive holds, depend on the
/// bytes alone.
#[verifier::external_body]
fn archive_open(data: &[u8]) -> (r: Result<ZipArchive<Cursor<Vec<u8>>>, ZipError>)
    ensures
        r is Ok <==> unpacked(data@) is Some,
        r matches Ok(archive) ==> unpacked(data@) == Some(contents(archive)),
{
    ZipArchive::new(Cursor::new(data.to_vec()))
}

/// The number of members.
///
/// Trusted: `zip::ZipArchive::len` is the number of members of the directory.
#[verifier::external_body]
fn archive_len(archive: &ZipArchive<Cursor<Vec<u8>>>) -> (n: usize)
    ensures
        n == contents(*archive).len(),
{
    archive.len()
}

/// The name of the member at `index`.
///
/// Trusted: `zip::ZipArchive::by_index` opens the member at that place of the
/// directory, and `name` is its name there; an index beyond the directory is
/// an error. Whether a member can be opened depends on the archive and the
/// index alone, and reading does not change what the archive holds.
#[verifier::external_body]
fn member_name(archive: &mut ZipArchive<Cursor<Vec<u8>>>, index: usize) -> (r: Result<
    String,
    ZipError,
>)
    ensures
        contents(*final(archive)) == contents(*old(archive)),
        r is Ok <==> opens(contents(*old(archive)), index as int),
        r matches Ok(name) ==> name@ == entry_name(contents(*old(archive))[index as int]),
{
    match archive.by_index(index) {
        Ok(file) => Ok(file.name().to_string()),
        Err(e) => Err(e),
    }
}

/// The data of the member at `index`, decompressed.
///
/// Trusted: `zip::ZipArchive::by_index` opens the member at that place of the
/// directory, and `read_to_end` on it yields its data, checked against its
/// checksum. Whether the member can be opened and read depends on the
/// archive and the index alone, and reading does not change what the archive
/// holds. A member that cannot be opened is a zip error, one that cannot be
/// read an i/o error.
#[verifier::external_body]
fn member_data(archive: &mut ZipArchive<Cursor<Vec<u8>>>, index: usize) -> (r: Result<
    Vec<u8>,
    LogitNpzError,
>)
    ensures
        contents(*final(archive)) == contents(*old(archive)),
        r is Ok <==> reads(contents(*old(archive)), index as int),
        r matches Ok(data) ==> Some(data@) == entry_data(contents(*old(archive))[index as int]),
        r matches Err(e) ==> if opens(contents(*old(archive)), index as int) {
            e is IoError
        } else {
            e is ZipError
        },
{
    let mut file = match archive.by_index(index) {
        Ok(file) => file,
        Err(e) => return Err(LogitNpzError::ZipError(e)),
    };
    let mut data = Vec::new();
    match std::io::Read::read_to_end(&mut file, &mut data) {
        Ok(_) => Ok(data),
        Err(e) => Err(LogitNpzError::IoError(e)),
    }
}

/// The text of an i/o error.
///
/// Trusted: nothing is claimed of the text.
#[verifier::external_body]
fn io_error_text(err: &std::io::Error) -> (text: String) {
    err.to_string()
}

/// The text of a zip error.
///
/// Trusted: nothing is claimed of the text.
#[verifier::external_body]
fn zip_error_text(err: &ZipError) -> (text: String) {
    err.to_string()
}

/// The extension of an array member's name.
pub open spec fn extension() -> Seq<char> {
    seq!['.', 'n', 'p', 'y']
}

/// Whether a member name is that of an array: it ends with the extension.
pub open spec fn is_array_name(name: Seq<char>) -> bool {
    name.len() >= 4 && name.subrange(name.len() - 4, name.len() as int) == extension()
}

/// The key of an array member: its name without the extension.
pub open spec fn key_of(name: Seq<char>) -> Seq<char> {
    name.subrange(0, name.len() - 4)
}

/// The name of a member that can be opened.
pub open spec fn entry_name(entry: Entry) -> Seq<char> {
    match entry {
        Some(member) => member.0,
        None => Seq::empty(),
    }
}

/// The data of a member, where it can be opened and read.
pub open spec fn entry_data(entry: Entry) -> Option<Seq<u8>> {
    match entry {
        Some(member) => member.1,
        None => None,
    }
}

/// Whether the member at `index` can be opened.
pub open spec fn opens(members: Seq<Entry>, index: int) -> bool {
    0 <= index < members.len() && members[index] is Some
}

/// Whether the member at `index` can be opened and read.
pub open spec fn reads(members: Seq<Entry>, index: int) -> bool {
    opens(members, index) && entry_data(members[index]) is Some
}

/// Whether the member at `index` can be loaded: it can be opened, and read
/// if it holds an array.
pub open spec fn loads(members: Seq<Entry>, index: int) -> bool {
    opens(members, index) && (is_array_name(entry_name(members[index])) ==> reads(members, index))
}

/// Whether every member can be loaded.
pub open spec fn loadable(members: Seq<Entry>) -> bool {
    forall|i: int| 0 <= i < members.len() ==> loads(members, i)
}

/// The arrays among `members`: each member whose name ends with the
/// extension, under its key, in the order of the members.
pub open spec fn arrays_of(members: Seq<Entry>) -> Seq<Member>
    decreases members.len(),
{
    if members.len() == 0 {
        Seq::empty()
    } else if is_array_name(entry_name(members.last())) && entry_data(members.last()) is Some {
        arrays_of(members.drop_last()).push(
            (key_of(entry_name(members.last())), entry_data(members.last())->0),
        )
    } else {
        arrays_of(members.drop_last())
    }
}

/// Whether the key's member name fits an archive.
pub open spec fn key_fits(key: Seq<char>) -> bool {
    encode_utf8(key).len() <= KEY_BYTES_LIMIT
}

/// Whether a writer that holds `members` takes one more member with its
/// data.
pub open spec fn member_accepted(
    members: Seq<Staged>,
    name: Seq<char>,
    level: int,
    data: Seq<u8>,
) -> bool {
    start_accepted(members, name, level) && write_accepted(
        members.push((name, level, Seq::empty())),
        data,
    )
}

/// Whether a writer takes the first `n` of `members`, one after the other.
pub open spec fn accepted_upto(members: Seq<Staged>, n: int) -> bool
    decreases n,
{
    if n <= 0 {
        true
    } else {
        accepted_upto(members, n - 1) && member_accepted(
            members.take(n - 1),
            members[n - 1].0,
            members[n - 1].1,
            members[n - 1].2,
        )
    }
}

/// Whether the archive of `members` can be written: a writer takes them all,
/// one after the other, and can be finished.
pub open spec fn archivable(members: Seq<Staged>) -> bool {
    accepted_upto(members, members.len() as int) && packed(members) is Some
}

/// Whether no two members have the same name.
pub open spec fn distinct_members(members: Seq<Staged>) -> bool {
    forall|i: int, j: int|
        0 <= i < j < members.len() ==> #[trigger] members[i].0 != #[trigger] members[j].0
}

/// The text of a concatenation is encoded as the concatenation of the
/// encodings.
pub proof fn lemma_encode_concat(a: Seq<char>, b: Seq<char>)
    ensures
        encode_utf8(a + b) == encode_utf8(a) + encode_utf8(b),
    decreases a.len(),
{
    if a.len() == 0 {
        assert(a + b =~= b);
        assert(encode_utf8(a) + encode_utf8(b) =~= encode_utf8(b));
    } else {
        assert((a + b).drop_first() =~= a.drop_first() + b);
        lemma_encode_concat(a.drop_first(), b);
        assert((a + b)[0] == a[0]);
        assert(encode_utf8(a + b) =~= encode_utf8(a) + encode_utf8(b));
    }
}

/// A member name is four bytes longer than its key.
pub proof fn lemma_member_name_length(key: Seq<char>)
    ensures
        encode_utf8(key + extension()).len() == encode_utf8(key).len() + 4,
{
    lemma_encode_concat(key, extension());
    vstd::utf8::is_ascii_chars_encode_utf8(extension());
}

/// The members that stand for `arrays`: each under its key with the
/// extension, at `level`.
pub open spec fn members_of(arrays: Seq<(String, Vec<u8>)>, level: i64) -> Seq<Staged> {
    Seq::new(arrays.len(), |i: int| (arrays[i].0@ + extension(), level as int, arrays[i].1@))
}

/// The plain view of a list of arrays.
pub open spec fn arrays_view(arrays: Seq<(String, Vec<u8>)>) -> Seq<Member> {
    Seq::new(arrays.len(), |i: int| (arrays[i].0@, arrays[i].1@))
}

/// The compression level that a call asks for: the last keyword argument
/// named `compression_level` that holds an integer; without one, the
/// positional argument if it holds an integer; without that, the default.
pub open spec fn resolved_level(positional: Option<i64>, keywords: Seq<(String, Option<i64>)>) -> i64
    decreases keywords.len(),
{
    if keywords.len() == 0 {
        match positional {
            Some(level) => level,
            None => DEFAULT_COMPRESSION_LEVEL,
        }
    } else if keywords.last().0@ == "compression_level"@ && keywords.last().1 is Some {
        keywords.last().1->0
    } else {
        resolved_level(positional, keywords.drop_last())
    }
}

/// The compression level that a call asks for. An argument that holds no
/// integer is `None`.
pub fn resolve_compression_level(positional: Option<i64>, keywords: &[(String, Option<i64>)]) -> (r:
    i64)
    ensures
        r == resolved_level(positional, keywords@),
{
    let mut level = match positional {
        Some(level) => level,
        None => DEFAULT_COMPRESSION_LEVEL,
    };
    let mut i: usize = 0;
    while i < keywords.len()
        invariant
            i <= keywords@.len(),
            level == resolved_level(positional, keywords@.take(i as int)),
        decreases keywords@.len() - i,
    {
        proof {
            assert(keywords@.take(i + 1).drop_last() =~= keywords@.take(i as int));
        }
        if crate::value::text_equal(keywords[i].0.as_str(), "compression_level") {
            match keywords[i].1 {
                Some(given) => {
                    level = given;
                },
                None => {},
            }
        }
        i += 1;
    }
    proof {
        assert(keywords@.take(i as int) =~= keywords@);
    }
    level
}

/// The name of the member that holds the array of `key`.
pub fn array_member_name(key: &str) -> (name: String)
    ensures
        name@ == key@ + extension(),
        is_array_name(name@),
        key_of(name@) == key@,
{
    proof {
        reveal_strlit(".npy");
    }
    let name = String::from_str(key).concat(".npy");
    assert(name@ =~= key@ + extension());
    assert(name@.subrange(name@.len() - 4, name@.len() as int) =~= extension());
    assert(name@.subrange(0, name@.len() - 4) =~= key@);
    name
}

/// The key of the array that a member named `name` holds; none where the
/// name does not end with the extension.
pub fn array_key(name: &str) -> (key: Option<String>)
    ensures
        key is Some <==> is_array_name(name@),
        key matches Some(k) ==> k@ == key_of(name@),
{
    let n = name.unicode_len();
    if n < 4 {
        return None;
    }
    if name.get_char(n - 4) == '.' && name.get_char(n - 3) == 'n' && name.get_char(n - 2) == 'p'
        && name.get_char(n - 1) == 'y' {
        assert(name@.subrange(n - 4, n as int) =~= extension());
        Some(name.substring_char(0, n - 4).to_owned())
    } else {
        assert(name@.subrange(n - 4, n as int)[0] == name@[n - 4]);
        assert(name@.subrange(n - 4, n as int)[1] == name@[n - 3]);
        assert(name@.subrange(n - 4, n as int)[2] == name@[n - 2]);
        assert(name@.subrange(n - 4, n as int)[3] == name@[n - 1]);
        None
    }
}

impl LogitNpzError {
    /// The message of the error; none for an error that the host has
    /// reported already.
    pub fn message(&self) -> (r: Option<String>)
        ensures
            r is None <==> *self is PythonError,
            *self matches LogitNpzError::InvalidFormat(what) ==> r->0@ == "Invalid format: "@
                + what@,
            *self is NumpyNotAvailable ==> r->0@ == "numpy is not available"@,
            *self is IoError ==> "IO error: "@.is_prefix_of(r->0@),
            *self is ZipError ==> "Zip error: "@.is_prefix_of(r->0@),
    {
        match self {
            LogitNpzError::IoError(e) => {
                let text = io_error_text(e);
                Some(String::from_str("IO error: ").concat(text.as_str()))
            },
            LogitNpzError::ZipError(e) => {
                let text = zip_error_text(e);
                Some(String::from_str("Zip error: ").concat(text.as_str()))
            },
            LogitNpzError::InvalidFormat(what) => Some(
                String::from_str("Invalid format: ").concat(what.as_str()),
            ),
            LogitNpzError::NumpyNotAvailable => Some(String::from_str("numpy is not available")),
            LogitNpzError::PythonError => None,
        }
    }
}

/// A writer that takes the first `n` of `members` takes any fewer of them.
pub proof fn lemma_accepted_prefix(members: Seq<Staged>, m: int, n: int)
    requires
        m <= n,
        accepted_upto(members, n),
    ensures
        accepted_upto(members, m),
    decreases n - m,
{
    if m < n && n > 0 {
        lemma_accepted_prefix(members, m, n - 1);
    }
}

/// An archive in the making: arrays are added one by one, and the bytes
/// are had at the end.
pub struct ArchiveBuilder {
    writer: ArchiveWriter,
    level: i64,
}

impl ArchiveBuilder {
    /// The members added so far, in their order.
    pub closed spec fn members(&self) -> Seq<Staged> {
        staged(self.writer)
    }

    /// The compression level of every member.
    pub closed spec fn level(&self) -> i64 {
        self.level
    }

    /// An archive without members, whose members will be compressed at
    /// `compression_level`.
    pub fn new(compression_level: i64) -> (builder: ArchiveBuilder)
        ensures
            builder.members() == Seq::<Staged>::empty(),
            builder.level() == compression_level,
    {
        ArchiveBuilder { writer: writer_new(), level: compression_level }
    }

    /// Adds the array of `key`, whose `.npy` form is `data`, as a member
    /// named by [`array_member_name`].
    ///
    /// A key whose member name would be over [`NAME_LIMIT`] is refused as an
    /// invalid format. Whether any other member is taken is for `zip` to
    /// say: it refuses a key that was added before and a level that zstd
    /// does not have. A member that cannot be started is a zip error, one
    /// whose data cannot be written an i/o error.
    pub fn add(self, key: &str, data: &[u8]) -> (r: Result<ArchiveBuilder, LogitNpzError>)
        ensures
            r is Ok <==> key_fits(key@) && member_accepted(
                self.members(),
                key@ + extension(),
                self.level() as int,
                data@,
            ),
            r is Ok ==> zstd_level(self.level() as int) && !has_member(
                self.members(),
                key@ + extension(),
            ),
            r matches Ok(next) ==> next.level() == self.level() && next.members()
                == self.members().push((key@ + extension(), self.level() as int, data@)),
            r matches Err(e) ==> {
                &&& e is InvalidFormat <==> !key_fits(key@)
                &&& e is ZipError <==> key_fits(key@) && !start_accepted(
                    self.members(),
                    key@ + extension(),
                    self.level() as int,
                )
                &&& e is IoError <==> key_fits(key@) && start_accepted(
                    self.members(),
                    key@ + extension(),
                    self.level() as int,
                )
            },
    {
        if key.as_bytes().len() > KEY_BYTES_LIMIT {
            return Err(LogitNpzError::InvalidFormat(String::from_str("array key is too long")));
        }
        let level = self.level;
        let name = array_member_name(key);
        proof {
            lemma_member_name_length(key@);
        }
        let started = match writer_start(self.writer, name.as_str(), level) {
            Ok(next) => next,
            Err(e) => {
                return Err(LogitNpzError::from(e));
            },
        };
        let written = match writer_write(started, data) {
            Ok(next) => next,
            Err(e) => {
                return Err(LogitNpzError::from(e));
            },
        };
        proof {
            assert(staged(started).drop_last() =~= staged(self.writer));
        }
        Ok(ArchiveBuilder { writer: written, level })
    }

    /// The bytes of the archive.
    pub fn finish(self) -> (r: Result<Vec<u8>, LogitNpzError>)
        ensures
            r is Ok <==> packed(self.members()) is Some,
            r matches Ok(bytes) ==> packed(self.members()) == Some(bytes@),
            r matches Err(e) ==> e is ZipError,
    {
        match writer_finish(self.writer) {
            Ok(bytes) => Ok(bytes),
            Err(e) => Err(LogitNpzError::from(e)),
        }
    }
}

/// An archive opened for reading, member by member.
pub struct ArchiveReader {
    archive: ZipArchive<Cursor<Vec<u8>>>,
}

impl ArchiveReader {
    /// The members of the archive, in the order of its directory.
    pub closed spec fn members(&self) -> Seq<Entry> {
        contents(self.archive)
    }

    /// Opens the archive that `data` holds.
    pub fn open(data: &[u8]) -> (r: Result<ArchiveReader, LogitNpzError>)
        ensures
            r is Ok <==> unpacked(data@) is Some,
            r matches Ok(reader) ==> unpacked(data@) == Some(reader.members()),
            r matches Err(e) ==> e is ZipError,
    {
        match archive_open(data) {
            Ok(archive) => Ok(ArchiveReader { archive }),
            Err(e) => Err(LogitNpzError::from(e)),
        }
    }

    /// The number of members.
    pub fn len(&self) -> (n: usize)
        ensures
            n == self.members().len(),
    {
        archive_len(&self.archive)
    }

    /// The array that the member at `index` holds, under its key; none for a
    /// member whose name does not end with `.npy`, which is not read.
    ///
    /// A member that cannot be opened is a zip error, an array that cannot be
    /// read an i/o error.
    pub fn array(&mut self, index: usize) -> (r: Result<Option<(String, Vec<u8>)>, LogitNpzError>)
        ensures
            final(self).members() == old(self).members(),
            r is Ok <==> loads(old(self).members(), index as int),
            r matches Ok(found) ==> {
                &&& found is Some <==> is_array_name(
                    entry_name(old(self).members()[index as int]),
                )
                &&& found matches Some(array) ==> array.0@ == key_of(
                    entry_name(old(self).members()[index as int]),
                ) && Some(array.1@) == entry_data(old(self).members()[index as int])
            },
            r matches Err(e) ==> if opens(old(self).members(), index as int) {
                e is IoError
            } else {
                e is ZipError
            },
    {
        let name = match member_name(&mut self.archive, index) {
            Ok(name) => name,
            Err(e) => {
                return Err(LogitNpzError::from(e));
            },
        };
        match array_key(name.as_str()) {
            Some(key) => match member_data(&mut self.archive, index) {
                Ok(data) => Ok(Some((key, data))),
                Err(e) => Err(e),
            },
            None => Ok(None),
        }
    }
}

/// The archive of `arrays`: one member for each, in their order, named by
/// [`array_member_name`] and compressed at `compression_level`.
///
/// Arrays with a key whose member name would be over [`NAME_LIMIT`] are
/// refused as an invalid format before anything is written. Whether any
/// other archive can be written is for `zip` to say: it refuses two arrays of
/// one key and a level that zstd does not have.
pub fn save_logitnpz_bytes(arrays: &Vec<(String, Vec<u8>)>, compression_level: i64) -> (r: Result<
    Vec<u8>,
    LogitNpzError,
>)
    ensures
        (r is Err && r->Err_0 is InvalidFormat) <==> exists|i: int|
            0 <= i < arrays@.len() && !key_fits(#[trigger] arrays@[i].0@),
        r is Ok <==> (forall|i: int| 0 <= i < arrays@.len() ==> key_fits(#[trigger] arrays@[i].0@))
            && archivable(members_of(arrays@, compression_level)),
        r matches Ok(bytes) ==> packed(members_of(arrays@, compression_level)) == Some(bytes@),
        r is Ok ==> distinct_members(members_of(arrays@, compression_level)) && (arrays@.len() > 0
            ==> zstd_level(compression_level as int)),
        r matches Err(e) ==> e is InvalidFormat || e is ZipError || e is IoError,
{
    let mut k: usize = 0;
    while k < arrays.len()
        invariant
            k <= arrays@.len(),
            forall|j: int| 0 <= j < k ==> key_fits(#[trigger] arrays@[j].0@),
        decreases arrays@.len() - k,
    {
        if arrays[k].0.as_str().as_bytes().len() > KEY_BYTES_LIMIT {
            return Err(LogitNpzError::InvalidFormat(String::from_str("array key is too long")));
        }
        k += 1;
    }
    let ghost all = members_of(arrays@, compression_level);
    let mut builder = ArchiveBuilder::new(compression_level);
    let mut i: usize = 0;
    while i < arrays.len()
        invariant
            i <= arrays@.len(),
            all == members_of(arrays@, compression_level),
            forall|j: int| 0 <= j < arrays@.len() ==> key_fits(#[trigger] arrays@[j].0@),
            builder.level() == compression_level,
            builder.members() == all.take(i as int),
            accepted_upto(all, i as int),
            distinct_members(all.take(i as int)),
            i > 0 ==> zstd_level(compression_level as int),
        decreases arrays@.len() - i,
    {
        let ghost before = builder.members();
        proof {
            assert(all.take(i as int).push(all[i as int]) =~= all.take(i + 1));
            assert(key_fits(arrays@[i as int].0@));
        }
        builder = match builder.add(arrays[i].0.as_str(), arrays[i].1.as_slice()) {
            Ok(next) => next,
            Err(e) => {
                proof {
                    if accepted_upto(all, all.len() as int) {
                        lemma_accepted_prefix(all, i + 1, all.len() as int);
                    }
                }
                return Err(e);
            },
        };
        proof {
            assert forall|a: int, b: int| 0 <= a < b < i + 1 implies #[trigger] all.take(i + 1)[a].0
                != #[trigger] all.take(i + 1)[b].0 by {
                if b < i {
                    assert(all.take(i as int)[a].0 != all.take(i as int)[b].0);
                } else {
                    assert(before[a].0 == all.take(i + 1)[a].0);
                }
            }
        }
        i += 1;
    }
    proof {
        assert(all.take(i as int) =~= all);
    }
    builder.finish()
}

/// The arrays of the archive that `data` holds: each member whose name ends
/// with `.npy`, under its key, in the order of the archive. Other members are
/// opened but not read.
///
/// Whether the archive can be opened, and each member opened and read, is
/// for `zip` to say.
pub fn load_logitnpz_bytes(data: &[u8]) -> (r: Result<Vec<(String, Vec<u8>)>, LogitNpzError>)
    ensures
        r is Ok <==> unpacked(data@) is Some && loadable(unpacked(data@)->0),
        r matches Ok(arrays) ==> arrays_view(arrays@) == arrays_of(unpacked(data@)->0),
        r matches Err(e) ==> e is ZipError || e is IoError,
{
    let mut reader = match ArchiveReader::open(data) {
        Ok(reader) => reader,
        Err(e) => {
            return Err(e);
        },
    };
    let ghost members = reader.members();
    let n = reader.len();
    let mut arrays: Vec<(String, Vec<u8>)> = Vec::new();
    let mut i: usize = 0;
    while i < n
        invariant
            i <= n,
            n == members.len(),
            unpacked(data@) == Some(members),
            reader.members() == members,
            forall|j: int| 0 <= j < i ==> loads(members, j),
            arrays_view(arrays@) == arrays_of(members.take(i as int)),
        decreases n - i,
    {
        proof {
            assert(members.take(i + 1).drop_last() =~= members.take(i as int));
            assert(members.take(i + 1).last() == members[i as int]);
        }
        match reader.array(i) {
            Ok(Some(array)) => {
                let ghost before = arrays@;
                arrays.push(array);
                proof {
                    assert(arrays_view(arrays@) =~= arrays_view(before).push(
                        (
                            key_of(entry_name(members[i as int])),
                            entry_data(members[i as int])->0,
                        ),
                    ));
                }
            },
            Ok(None) => {},
            Err(e) => {
                return Err(e);
            },
        }
        i += 1;
    }
    proof {
        assert(members.take(i as int) =~= members);
    }
    Ok(arrays)
}

} // verus!
