//! Folders as archives: the entries of a folder are written to a deflate
//! archive in memory and read back from one. The archive format itself is
//! the work of the `zip` crate; what is decided here is which entry goes in
//! as a directory or as a file, and which entries come out.

use std::io::{Cursor, Read, Write};
use vstd::prelude::*;
use vstd::string::StringExecFns;
use vstd::utf8::encode_utf8;
use zip::result::ZipError;
use zip::write::SimpleFileOptions;
use zip::{CompressionMethod, DateTime, ZipArchive, ZipWriter};

verus! {

/// One entry of a folder that is to be archived: its path relative to the
/// folder, whether it is a directory, and the content if it is a file.
#[derive(Debug, Clone, PartialEq, Eq)]
pub struct FolderEntry {
    pub name: String,
    pub is_dir: bool,
    pub data: Vec<u8>,
}

/// One entry read from an archive: its name as stored, that name as a
/// relative path for this machine, whether it is a directory, and the
/// content if it is a file.
#[derive(Debug, Clone, PartialEq, Eq)]
pub struct ArchiveEntry {
    pub name: String,
    pub path: String,
    pub is_dir: bool,
    pub data: Vec<u8>,
}

/// The most bytes that the name of an entry may take: what the length
/// field of the archive format holds.
pub const MAX_NAME_BYTES: usize = 65535;

/// That an archive could not be written or read.
#[derive(Debug, Clone, Copy, PartialEq, Eq, Structural)]
pub struct ArchiveError;

/// `std::io::Cursor`, which gives an archive its bytes.
#[verifier::external_type_specification]
#[verifier::external_body]
#[verifier::reject_recursive_types(T)]
pub struct ExCursor<T>(Cursor<T>);

/// `zip::ZipArchive`, an archive opened for reading.
#[verifier::external_type_specification]
#[verifier::external_body]
#[verifier::reject_recursive_types(R)]
pub struct ExZipArchive<R>(ZipArchive<R>);

/// `zip::result::ZipError`, the error of every archive operation.
#[verifier::external_type_specification]
#[verifier::external_body]
pub struct ExZipError(ZipError);

/// A `zip::ZipWriter` that writes to memory. Verus cannot take the
/// writer's own type, whose parameter is bound by traits of `std::io`.
#[verifier::external_body]
pub struct ArchiveWriter {
    inner: ZipWriter<Cursor<Vec<u8>>>,
}

/// What a writer has taken so far, entry by entry and in order: the name
/// it was given, whether it went in as a directory, and the content that
/// was written to it.
pub uninterp spec fn writer_entries(writer: ArchiveWriter) -> Seq<(Seq<char>, bool, Seq<u8>)>;

/// Whether a writer that holds all but the last of `entries` takes the
/// last as well: whether adding it as a directory succeeds, or starting it
/// as a file and then writing its content. The writer keeps its archive in
/// memory and is given the same options for every entry, so this follows
/// from the entries alone; it refuses, for one, a name that it already holds.
pub uninterp spec fn writer_accepts(entries: Seq<(Seq<char>, bool, Seq<u8>)>) -> bool;

/// What `ZipWriter::finish` gives for a writer that has taken `entries`:
/// `None` where it fails, else the bytes of the archive of those entries
/// in that order, every file deflated at the default level and every
/// entry dated with the format's first date. The writer reads no clock and
/// nothing else of the machine, so the bytes follow from the entries alone.
pub uninterp spec fn zip_bytes_spec(entries: Seq<(Seq<char>, bool, Seq<u8>)>) -> Option<Seq<u8>>;

/// What `ZipArchive::new` makes of `data`: `None` where it refuses the
/// bytes, else the contents of the archive that it returns.
pub uninterp spec fn zip_archive_spec(data: Seq<u8>) -> Option<
    Seq<Option<(Seq<char>, bool, Option<Seq<u8>>)>>,
>;

/// What an open archive holds, entry by entry: `None` where the entry
/// cannot be opened, else its name, whether it is a directory, and its
/// content, which is `None` where reading it fails.
pub uninterp spec fn archive_contents(archive: ZipArchive<Cursor<Vec<u8>>>) -> Seq<
    Option<(Seq<char>, bool, Option<Seq<u8>>)>,
>;

/// `ZipWriter::new` on an empty buffer in memory: a writer that has taken nothing.
#[verifier::external_body]
fn writer_begin() -> (writer: ArchiveWriter)
    ensures
        writer_entries(writer) == Seq::<(Seq<char>, bool, Seq<u8>)>::empty(),
{
    ArchiveWriter { inner: ZipWriter::new(Cursor::new(Vec::new())) }
}

/// `ZipWriter::add_directory` with the format's first date, for a name
/// that ends in a slash, which the writer then keeps as it is, and that
/// takes no more bytes than the format's length field holds, beyond which
/// the writer panics. The call succeeds where the writer accepts the
/// directory; the writer comes back only then, and holds it after what it had.
#[verifier::external_body]
fn writer_add_directory(writer: ArchiveWriter, name: &str) -> (res: Result<ArchiveWriter, ZipError>)
    requires
        name@.len() > 0,
        name@.last() == '/',
        encode_utf8(name@).len() <= MAX_NAME_BYTES,
    ensures
        res is Ok <==> writer_accepts(
            writer_entries(writer).push((name@, true, Seq::<u8>::empty())),
        ),
        res matches Ok(next) ==> writer_entries(next) == writer_entries(writer).push(
            (name@, true, Seq::<u8>::empty()),
        ),
{
    let mut writer = writer;
    let options = SimpleFileOptions::default()
        .compression_method(CompressionMethod::Deflated)
        .last_modified_time(DateTime::default());
    match writer.inner.add_directory(name, options) {
        Ok(()) => Ok(writer),
        Err(e) => Err(e),
    }
}

/// `ZipWriter::start_file` with deflate compression and the format's first
/// date, for a name that takes no more bytes than the format's length
/// field holds, beyond which the writer panics. The call succeeds where
/// the writer accepts the file, still empty; the writer comes back only
/// then, and holds it after what it had.
#[verifier::external_body]
fn writer_start_file(writer: ArchiveWriter, name: &str) -> (res: Result<ArchiveWriter, ZipError>)
    requires
        encode_utf8(name@).len() <= MAX_NAME_BYTES,
    ensures
        res is Ok <==> writer_accepts(
            writer_entries(writer).push((name@, false, Seq::<u8>::empty())),
        ),
        res matches Ok(next) ==> writer_entries(next) == writer_entries(writer).push(
            (name@, false, Seq::<u8>::empty()),
        ),
{
    let mut writer = writer;
    let options = SimpleFileOptions::default()
        .compression_method(CompressionMethod::Deflated)
        .last_modified_time(DateTime::default());
    match writer.inner.start_file(name, options) {
        Ok(()) => Ok(writer),
        Err(e) => Err(e),
    }
}

/// `write_all` of `ZipWriter`'s `Write`, for a writer whose last entry is
/// a file that is still empty. The call succeeds where the writer accepts
/// that file with the content `data`; the writer comes back only then, and
/// the file has that content.
#[verifier::external_body]
fn writer_write(writer: ArchiveWriter, data: &[u8]) -> (res: Result<ArchiveWriter, ZipError>)
    requires
        writer_entries(writer).len() > 0,
        !writer_entries(writer).last().1,
        writer_entries(writer).last().2.len() == 0,
    ensures
        res is Ok <==> writer_accepts(
            writer_entries(writer).drop_last().push(
                (writer_entries(writer).last().0, false, data@),
            ),
        ),
        res matches Ok(next) ==> writer_entries(next) == writer_entries(writer).drop_last().push(
            (writer_entries(writer).last().0, false, data@),
        ),
{
    let mut writer = writer;
    match writer.inner.write_all(data) {
        Ok(()) => Ok(writer),
        Err(e) => Err(ZipError::from(e)),
    }
}

/// `ZipWriter::finish`: it succeeds where the name of its result is not
/// `None`, and gives the bytes named.
#[verifier::external_body]
fn writer_finish(writer: ArchiveWriter) -> (res: Result<Vec<u8>, ZipError>)
    ensures
        match zip_bytes_spec(writer_entries(writer)) {
            Some(bytes) => res is Ok && res->Ok_0@ == bytes,
            None => res is Err,
        },
{
    match writer.inner.finish() {
        Ok(buffer) => Ok(buffer.into_inner()),
        Err(e) => Err(e),
    }
}

/// `ZipArchive::new` on a copy of `data`: it fails where the name of its
/// result is `None`, and else returns an archive with the contents named.
#[verifier::external_body]
fn archive_open(data: &[u8]) -> (res: Result<ZipArchive<Cursor<Vec<u8>>>, ZipError>)
    ensures
        match res {
            Ok(archive) => zip_archive_spec(data@) == Some(archive_contents(archive)),
            Err(_) => zip_archive_spec(data@) is None,
        },
{
    ZipArchive::new(Cursor::new(data.to_vec()))
}

/// `ZipArchive::len`: the number of entries.
#[verifier::external_body]
fn archive_len(archive: &ZipArchive<Cursor<Vec<u8>>>) -> (len: usize)
    ensures
        len == archive_contents(*archive).len(),
{
    archive.len()
}

/// `ZipArchive::by_index`, then `name`, `mangled_name`, `is_dir` and
/// `read_to_end` of the entry: its name, the name as a relative path,
/// whether it is a directory, and its content, `None` where reading it
/// failed. Of the path nothing is claimed: it depends on the machine's path
/// separator. The archive's contents stay as they are.
#[verifier::external_body]
fn archive_entry(archive: &mut ZipArchive<Cursor<Vec<u8>>>, index: usize) -> (res: Result<
    (String, String, bool, Option<Vec<u8>>),
    ZipError,
>)
    requires
        index < archive_contents(*old(archive)).len(),
    ensures
        archive_contents(*final(archive)) == archive_contents(*old(archive)),
        match archive_contents(*old(archive))[index as int] {
            Some((name, is_dir, body)) => {
                &&& res is Ok
                &&& res->Ok_0.0@ == name
                &&& res->Ok_0.2 == is_dir
                &&& match body {
                    Some(bytes) => res->Ok_0.3 is Some && res->Ok_0.3->Some_0@ == bytes,
                    None => res->Ok_0.3 is None,
                }
            },
            None => res is Err,
        },
{
    let mut file = archive.by_index(index)?;
    let path = file.mangled_name().to_string_lossy().into_owned();
    let mut body: Vec<u8> = Vec::new();
    let read = match file.read_to_end(&mut body) {
        Ok(_) => Some(body),
        Err(_) => None,
    };
    Ok((file.name().to_string(), path, file.is_dir(), read))
}

/// What entry `i` of an archive with the contents `contents` is read as:
/// its name, whether it is a directory, and its content, which is empty
/// for a directory. `None` where the entry cannot be opened, or is a file
/// whose content cannot be read.
pub open spec fn entry_spec(contents: Seq<Option<(Seq<char>, bool, Option<Seq<u8>>)>>, i: int) -> Option<
    (Seq<char>, bool, Seq<u8>),
> {
    match contents[i] {
        None => None,
        Some((name, is_dir, body)) => if is_dir {
            Some((name, true, Seq::<u8>::empty()))
        } else {
            match body {
                None => None,
                Some(bytes) => Some((name, false, bytes)),
            }
        },
    }
}

/// The entries that the archive in `zip_data` is read as, in the order in
/// which it stores them; `None` where the archive or one of them cannot be read.
pub open spec fn extract_spec(zip_data: Seq<u8>) -> Option<Seq<(Seq<char>, bool, Seq<u8>)>> {
    match zip_archive_spec(zip_data) {
        None => None,
        Some(contents) => if forall|i: int|
            0 <= i < contents.len() ==> #[trigger] entry_spec(contents, i) is Some {
            Some(Seq::new(contents.len(), |i: int| entry_spec(contents, i)->Some_0))
        } else {
            None
        },
    }
}

/// The name, the kind and the content of each of `entries`.
pub open spec fn entries_view(entries: Seq<ArchiveEntry>) -> Seq<(Seq<char>, bool, Seq<u8>)> {
    Seq::new(entries.len(), |i: int| (entries[i].name@, entries[i].is_dir, entries[i].data@))
}

/// The names of those of `entries` that are files, in their order.
pub open spec fn file_names_spec(entries: Seq<ArchiveEntry>) -> Seq<Seq<char>>
    decreases entries.len(),
{
    if entries.len() == 0 {
        Seq::empty()
    } else if entries.last().is_dir {
        file_names_spec(entries.drop_last())
    } else {
        file_names_spec(entries.drop_last()).push(entries.last().name@)
    }
}

/// The names of each of `names`.
pub open spec fn names_view(names: Seq<String>) -> Seq<Seq<char>> {
    Seq::new(names.len(), |i: int| names[i]@)
}

/// What the writer takes for an entry of a folder: a directory under its
/// name followed by a slash and with no content, a file under its name
/// with its content.
pub open spec fn folder_entry_view(entry: FolderEntry) -> (Seq<char>, bool, Seq<u8>) {
    if entry.is_dir {
        (entry.name@ + "/"@, true, Seq::<u8>::empty())
    } else {
        (entry.name@, false, entry.data@)
    }
}

/// What the writer takes for each of `entries`, in their order.
pub open spec fn folder_view(entries: Seq<FolderEntry>) -> Seq<(Seq<char>, bool, Seq<u8>)> {
    Seq::new(entries.len(), |i: int| folder_entry_view(entries[i]))
}

/// Whether a writer that holds `had` takes `entry` after it: the name
/// under which it goes in takes at most 65535 bytes, and the writer
/// accepts the directory, or the file when it is started and again when
/// its content is written.
pub open spec fn entry_accepted(had: Seq<(Seq<char>, bool, Seq<u8>)>, entry: FolderEntry) -> bool {
    if entry.is_dir {
        &&& encode_utf8(entry.name@ + "/"@).len() <= MAX_NAME_BYTES
        &&& writer_accepts(had.push((entry.name@ + "/"@, true, Seq::<u8>::empty())))
    } else {
        &&& encode_utf8(entry.name@).len() <= MAX_NAME_BYTES
        &&& writer_accepts(had.push((entry.name@, false, Seq::<u8>::empty())))
        &&& writer_accepts(had.push((entry.name@, false, entry.data@)))
    }
}

/// Whether a writer that holds `had` takes each of `entries` in turn.
pub open spec fn folder_accepted(had: Seq<(Seq<char>, bool, Seq<u8>)>, entries: Seq<FolderEntry>) -> bool {
    forall|i: int|
        0 <= i < entries.len() ==> entry_accepted(
            had + folder_view(#[trigger] entries.subrange(0, i)),
            entries[i],
        )
}

/// The archive of the entries of a folder: `None` where a name is too
/// long or the writer refuses an entry or cannot finish, else the bytes
/// that the writer makes of the entries.
pub open spec fn create_zip_spec(entries: Seq<FolderEntry>) -> Option<Seq<u8>> {
    if folder_accepted(Seq::empty(), entries) {
        zip_bytes_spec(folder_view(entries))
    } else {
        None
    }
}

/// Hands the entries of a folder to the writer, in the order given: each
/// directory as a directory under its name and a slash, each file as a
/// deflated file with its content. It stops at the first entry whose name
/// is too long or that the writer refuses.
fn add_folder_to_zip(writer: ArchiveWriter, entries: &Vec<FolderEntry>) -> (res: Result<
    ArchiveWriter,
    ArchiveError,
>)
    ensures
        res is Ok <==> folder_accepted(writer_entries(writer), entries@),
        res matches Ok(filled) ==> writer_entries(filled) == writer_entries(writer) + folder_view(
            entries@,
        ),
        entries@.len() == 0 ==> res is Ok,
{
    let ghost had = writer_entries(writer);
    let mut filling = writer;
    let mut i: usize = 0;
    assert(had + folder_view(entries@.subrange(0, 0)) =~= had);
    while i < entries.len()
        invariant
            i <= entries@.len(),
            had == writer_entries(writer),
            writer_entries(filling) == had + folder_view(entries@.subrange(0, i as int)),
            forall|k: int|
                0 <= k < i ==> entry_accepted(
                    had + folder_view(#[trigger] entries@.subrange(0, k)),
                    entries@[k],
                ),
        decreases entries@.len() - i,
    {
        let entry = &entries[i];
        let ghost before = writer_entries(filling);
        let ghost prefix = entries@.subrange(0, i as int);
        if entry.is_dir {
            let dir_name: String = entry.name.clone().concat("/");
            proof {
                reveal_strlit("/");
            }
            if dir_name.as_str().as_bytes().len() > MAX_NAME_BYTES {
                assert(!entry_accepted(had + folder_view(prefix), entries@[i as int]));
                return Err(ArchiveError);
            }
            match writer_add_directory(filling, dir_name.as_str()) {
                Ok(next) => { filling = next; },
                Err(_) => {
                    assert(!entry_accepted(had + folder_view(prefix), entries@[i as int]));
                    return Err(ArchiveError);
                },
            }
        } else {
            if entry.name.as_str().as_bytes().len() > MAX_NAME_BYTES {
                assert(!entry_accepted(had + folder_view(prefix), entries@[i as int]));
                return Err(ArchiveError);
            }
            match writer_start_file(filling, entry.name.as_str()) {
                Ok(next) => { filling = next; },
                Err(_) => {
                    assert(!entry_accepted(had + folder_view(prefix), entries@[i as int]));
                    return Err(ArchiveError);
                },
            }
            assert(writer_entries(filling).drop_last() =~= before);
            match writer_write(filling, entry.data.as_slice()) {
                Ok(next) => { filling = next; },
                Err(_) => {
                    assert(!entry_accepted(had + folder_view(prefix), entries@[i as int]));
                    return Err(ArchiveError);
                },
            }
            assert(writer_entries(filling) =~= before.push((entry.name@, false, entry.data@)));
        }
        assert(entry_accepted(had + folder_view(prefix), entries@[i as int]));
        assert(writer_entries(filling) == before.push(folder_entry_view(entries@[i as int])));
        assert(had + folder_view(entries@.subrange(0, i + 1)) =~= (had + folder_view(
            prefix,
        )).push(folder_entry_view(entries@[i as int])));
        i += 1;
    }
    assert(entries@.subrange(0, i as int) == entries@);
    Ok(filling)
}

/// Writes the entries of a folder to an archive in memory: a directory
/// entry for each directory and a deflated file for each file, in the
/// order given. It fails where a name takes more than 65535 bytes, or the
/// writer refuses an entry or cannot finish.
pub fn create_zip_from_folder(entries: &Vec<FolderEntry>) -> (res: Result<Vec<u8>, ArchiveError>)
    ensures
        match create_zip_spec(entries@) {
            Some(bytes) => res is Ok && res->Ok_0@ == bytes,
            None => res is Err,
        },
{
    let writer = match add_folder_to_zip(writer_begin(), entries) {
        Ok(filled) => filled,
        Err(e) => { return Err(e); },
    };
    assert(writer_entries(writer) =~= folder_view(entries@));
    match writer_finish(writer) {
        Ok(bytes) => Ok(bytes),
        Err(_) => Err(ArchiveError),
    }
}

/// Reads every entry of the archive in `zip_data`: the content of each
/// file, and of a directory only its name.
pub fn extract_zip_to_folder(zip_data: &[u8]) -> (res: Result<Vec<ArchiveEntry>, ArchiveError>)
    ensures
        match extract_spec(zip_data@) {
            Some(entries) => res is Ok && entries_view(res->Ok_0@) == entries,
            None => res is Err,
        },
{
    let mut archive = match archive_open(zip_data) {
        Ok(archive) => archive,
        Err(_) => { return Err(ArchiveError); },
    };
    let ghost contents = archive_contents(archive);
    let count: usize = archive_len(&archive);
    let mut entries: Vec<ArchiveEntry> = Vec::new();
    let mut i: usize = 0;
    while i < count
        invariant
            i <= count,
            count == contents.len(),
            archive_contents(archive) == contents,
            zip_archive_spec(zip_data@) == Some(contents),
            entries@.len() == i,
            forall|k: int| 0 <= k < i ==> #[trigger] entry_spec(contents, k) == Some(
                (entries@[k].name@, entries@[k].is_dir, entries@[k].data@),
            ),
        decreases count - i,
    {
        let (name, path, is_dir, body) = match archive_entry(&mut archive, i) {
            Ok(entry) => entry,
            Err(_) => {
                assert(entry_spec(contents, i as int) is None);
                return Err(ArchiveError);
            },
        };
        let data: Vec<u8> = if is_dir {
            Vec::new()
        } else {
            match body {
                Some(bytes) => bytes,
                None => {
                    assert(entry_spec(contents, i as int) is None);
                    return Err(ArchiveError);
                },
            }
        };
        entries.push(ArchiveEntry { name, path, is_dir, data });
        i += 1;
    }
    assert(entries_view(entries@) =~= Seq::new(
        contents.len(),
        |i: int| entry_spec(contents, i)->Some_0,
    ));
    Ok(entries)
}

/// Lists the names of the files among `entries`, in their order.
pub fn extracted_files(entries: &Vec<ArchiveEntry>) -> (names: Vec<String>)
    ensures
        names_view(names@) == file_names_spec(entries@),
{
    let mut names: Vec<String> = Vec::new();
    let mut i: usize = 0;
    while i < entries.len()
        invariant
            i <= entries@.len(),
            names_view(names@) == file_names_spec(entries@.subrange(0, i as int)),
        decreases entries@.len() - i,
    {
        let ghost before = names@;
        proof {
            let next = entries@.subrange(0, i + 1);
            assert(next.drop_last() == entries@.subrange(0, i as int));
            assert(next.last() == entries@[i as int]);
        }
        if !entries[i].is_dir {
            names.push(entries[i].name.clone());
            assert(names_view(names@) =~= names_view(before).push(entries@[i as int].name@));
        }
        i += 1;
    }
    assert(entries@.subrange(0, i as int) == entries@);
    names
}

} // verus!
