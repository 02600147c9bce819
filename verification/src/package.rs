//! Payloads for raw bytes, single files and folders, and the artifacts
//! that carry them. Reading and writing files is the caller's part: these
//! functions take and give bytes.

use crate::archive::{
    create_zip_from_folder, create_zip_spec, entries_view, extract_spec, extract_zip_to_folder,
    extracted_files, file_names_spec, names_view, ArchiveEntry, FolderEntry,
};
use crate::bytes::{get_u16_le, lemma_u16_le_round_trip, put_u16_le, u16_from_le_bytes, u16_le_bytes};
use crate::constants::PREFIX_LEN;
use crate::error::PinkError;
use crate::frame::{
    frame_spec, lemma_frame_layout, lemma_wrap_unwrap_round_trip, pink072_unwrap, pink072_wrap,
    unwrap_spec,
};
use crate::png::{decode_pnk, decode_pnk_spec, encode_pnk, lemma_pnk_round_trip, pnk_spec};
use vstd::prelude::*;
use vstd::slice::{slice_subrange, slice_to_vec};
use vstd::string::StringExecFns;
use vstd::utf8::{
    decode_utf8, encode_utf8, encode_utf8_decode_utf8, encode_utf8_valid_utf8, valid_utf8,
};

verus! {

/// Payload type of raw bytes.
pub const PAYLOAD_TYPE_RAW: u8 = 0;

/// Payload type of a single named file.
pub const PAYLOAD_TYPE_FILE: u8 = 1;

/// Payload type of an archive of a folder.
pub const PAYLOAD_TYPE_ZIP: u8 = 2;

/// The ways in which packing and unpacking can fail.
#[derive(Debug, Clone, Copy, PartialEq, Eq, Structural)]
pub enum PackageError {
    /// The container or the frame is malformed.
    Codec(PinkError),
    /// The frame carries another payload type than the one asked for.
    UnexpectedType { expected: u8, found: u8 },
    /// A file payload is shorter than its length field.
    PayloadTooShort,
    /// A file payload ends before its name does.
    InvalidNameLength,
    /// The name in a file payload is not UTF-8.
    InvalidNameEncoding,
    /// The frame carries a payload type that is not known.
    UnknownType(u8),
    /// The archive cannot be written or read.
    Archive,
}

/// The payload for a file: the length of its name in bytes as two
/// little-endian bytes, the name in UTF-8, then the content. A length that
/// does not fit sixteen bits is stored modulo 65536.
pub open spec fn file_payload_spec(name: Seq<char>, data: Seq<u8>) -> Seq<u8> {
    u16_le_bytes((encode_utf8(name).len() % 65536) as u16) + encode_utf8(name) + data
}

/// What taking a file payload apart gives: the name and the content, or
/// the first of the checks that fails.
pub open spec fn parse_file_payload_spec(payload: Seq<u8>) -> Result<
    (Seq<char>, Seq<u8>),
    PackageError,
> {
    if payload.len() < 2 {
        Err(PackageError::PayloadTooShort)
    } else {
        let name_len = u16_from_le_bytes(payload.subrange(0, 2)) as int;
        if payload.len() < 2 + name_len {
            Err(PackageError::InvalidNameLength)
        } else if !valid_utf8(payload.subrange(2, 2 + name_len)) {
            Err(PackageError::InvalidNameEncoding)
        } else {
            Ok(
                (
                    decode_utf8(payload.subrange(2, 2 + name_len)),
                    payload.subrange(2 + name_len, payload.len() as int),
                ),
            )
        }
    }
}

/// The artifact that carries `payload` under the type `payload_type`.
pub open spec fn pack_spec(payload: Seq<u8>, payload_type: u8, seed: Seq<u8>, strength: u8) -> Seq<
    u8,
> {
    pnk_spec(frame_spec(payload, payload_type, seed, strength))
}

/// What an artifact carries: the payload type and the payload, or the
/// error of the container or of the frame.
pub open spec fn unpack_spec(data: Seq<u8>) -> Result<(u8, Seq<u8>), PackageError> {
    match decode_pnk_spec(data) {
        None => Err(PackageError::Codec(PinkError::InvalidFormat)),
        Some(frame) => match unwrap_spec(frame) {
            Err(e) => Err(PackageError::Codec(e)),
            Ok(carried) => Ok(carried),
        },
    }
}

/// What an artifact carries if it must be of the type `expected`.
pub open spec fn unpack_typed_spec(data: Seq<u8>, expected: u8) -> Result<Seq<u8>, PackageError> {
    match unpack_spec(data) {
        Err(e) => Err(e),
        Ok((found, payload)) => if found == expected {
            Ok(payload)
        } else {
            Err(PackageError::UnexpectedType { expected, found })
        },
    }
}

/// The file that an artifact carries.
pub open spec fn decode_file_spec(data: Seq<u8>) -> Result<(Seq<char>, Seq<u8>), PackageError> {
    match unpack_typed_spec(data, PAYLOAD_TYPE_FILE) {
        Err(e) => Err(e),
        Ok(payload) => parse_file_payload_spec(payload),
    }
}

/// Taking apart the payload of a file gives the name and the content back,
/// as long as the name takes fewer than 65536 bytes.
pub proof fn lemma_file_payload_round_trip(name: Seq<char>, data: Seq<u8>)
    requires
        encode_utf8(name).len() < 65536,
    ensures
        parse_file_payload_spec(file_payload_spec(name, data)) == Ok::<
            (Seq<char>, Seq<u8>),
            PackageError,
        >((name, data)),
{
    let bytes = encode_utf8(name);
    let payload = file_payload_spec(name, data);
    let n = bytes.len() as int;
    lemma_u16_le_round_trip(n as u16);
    encode_utf8_valid_utf8(name);
    encode_utf8_decode_utf8(name);
    assert(payload.subrange(0, 2) =~= u16_le_bytes(n as u16));
    assert(payload.subrange(2, 2 + n) =~= bytes);
    assert(payload.subrange(2 + n, payload.len() as int) =~= data);
}

/// Unpacking the artifact of a payload gives the payload and its type back.
pub proof fn lemma_pack_unpack_round_trip(
    payload: Seq<u8>,
    payload_type: u8,
    seed: Seq<u8>,
    strength: u8,
)
    requires
        seed.len() == 9,
        PREFIX_LEN + payload.len() <= usize::MAX,
    ensures
        unpack_spec(pack_spec(payload, payload_type, seed, strength)) == Ok::<
            (u8, Seq<u8>),
            PackageError,
        >((payload_type, payload)),
{
    lemma_frame_layout(payload, payload_type, seed, strength);
    lemma_pnk_round_trip(frame_spec(payload, payload_type, seed, strength));
    lemma_wrap_unwrap_round_trip(payload, payload_type, seed, strength);
}

/// Decoding the artifact of raw bytes gives the bytes back.
pub proof fn lemma_raw_round_trip(data: Seq<u8>, seed: Seq<u8>, strength: u8)
    requires
        seed.len() == 9,
        PREFIX_LEN + data.len() <= usize::MAX,
    ensures
        unpack_typed_spec(pack_spec(data, PAYLOAD_TYPE_RAW, seed, strength), PAYLOAD_TYPE_RAW)
            == Ok::<Seq<u8>, PackageError>(data),
{
    lemma_pack_unpack_round_trip(data, PAYLOAD_TYPE_RAW, seed, strength);
}

/// Decoding the artifact of a file gives its name and its content back,
/// as long as the name takes fewer than 65536 bytes.
pub proof fn lemma_file_round_trip(name: Seq<char>, data: Seq<u8>, seed: Seq<u8>, strength: u8)
    requires
        seed.len() == 9,
        encode_utf8(name).len() < 65536,
        PREFIX_LEN + file_payload_spec(name, data).len() <= usize::MAX,
    ensures
        decode_file_spec(
            pack_spec(file_payload_spec(name, data), PAYLOAD_TYPE_FILE, seed, strength),
        ) == Ok::<(Seq<char>, Seq<u8>), PackageError>((name, data)),
{
    lemma_pack_unpack_round_trip(file_payload_spec(name, data), PAYLOAD_TYPE_FILE, seed, strength);
    lemma_file_payload_round_trip(name, data);
}

/// `String::from_utf8`: it succeeds on the byte strings that are valid
/// UTF-8 and on no others, and the text it gives is what they decode to.
#[verifier::external_body]
fn string_from_utf8(bytes: Vec<u8>) -> (res: Option<String>)
    ensures
        res is Some <==> valid_utf8(bytes@),
        res matches Some(text) ==> text@ == decode_utf8(bytes@),
{
    String::from_utf8(bytes).ok()
}

/// Builds the payload for a file from its name and its content.
pub fn build_file_payload(file_name: &str, data: &[u8]) -> (payload: Vec<u8>)
    ensures
        payload@ == file_payload_spec(file_name@, data@),
{
    let name_bytes = file_name.as_bytes();
    let name_len: u16 = (name_bytes.len() % 65536) as u16;
    let mut payload: Vec<u8> = Vec::new();
    put_u16_le(&mut payload, name_len);
    payload.extend_from_slice(name_bytes);
    payload.extend_from_slice(data);
    payload
}

/// Takes a file payload apart into the name and the content.
pub fn parse_file_payload(payload: &[u8]) -> (res: Result<(String, &[u8]), PackageError>)
    ensures
        match parse_file_payload_spec(payload@) {
            Ok((name, data)) => res is Ok && res->Ok_0.0@ == name && res->Ok_0.1@ == data,
            Err(e) => res is Err && res->Err_0 == e,
        },
{
    if payload.len() < 2 {
        return Err(PackageError::PayloadTooShort);
    }
    let name_len: usize = get_u16_le(payload, 0) as usize;
    if payload.len() - 2 < name_len {
        return Err(PackageError::InvalidNameLength);
    }
    match string_from_utf8(slice_to_vec(slice_subrange(payload, 2, 2 + name_len))) {
        None => Err(PackageError::InvalidNameEncoding),
        Some(file_name) => Ok((file_name, slice_subrange(payload, 2 + name_len, payload.len()))),
    }
}

/// Wraps `payload` in a frame of the type `payload_type` and the frame in
/// an artifact.
pub fn pack(payload: &[u8], payload_type: u8, seed9: &[u8; 9], strength: u8) -> (pnk: Vec<u8>)
    ensures
        pnk@ == pack_spec(payload@, payload_type, seed9@, strength),
{
    match pink072_wrap(payload, payload_type, seed9.as_slice(), strength) {
        Ok(frame) => encode_pnk(frame.as_slice()),
        Err(_) => vstd::pervasive::unreached(),
    }
}

/// Takes an artifact apart into the payload type and the payload.
pub fn unpack(pnk_data: &[u8]) -> (res: Result<(u8, Vec<u8>), PackageError>)
    ensures
        match unpack_spec(pnk_data@) {
            Ok((payload_type, payload)) => res is Ok && res->Ok_0.0 == payload_type
                && res->Ok_0.1@ == payload,
            Err(e) => res is Err && res->Err_0 == e,
        },
{
    match decode_pnk(pnk_data) {
        Err(e) => Err(PackageError::Codec(e)),
        Ok(frame) => match pink072_unwrap(frame) {
            Err(e) => Err(PackageError::Codec(e)),
            Ok(carried) => Ok(carried),
        },
    }
}

/// Takes an artifact apart and accepts only the payload type `expected`.
pub fn unpack_typed(pnk_data: &[u8], expected: u8) -> (res: Result<Vec<u8>, PackageError>)
    ensures
        match unpack_typed_spec(pnk_data@, expected) {
            Ok(payload) => res is Ok && res->Ok_0@ == payload,
            Err(e) => res is Err && res->Err_0 == e,
        },
{
    match unpack(pnk_data) {
        Err(e) => Err(e),
        Ok((found, payload)) => {
            if found != expected {
                Err(PackageError::UnexpectedType { expected, found })
            } else {
                Ok(payload)
            }
        },
    }
}

/// Encodes the content of a file, under its name, as an artifact.
pub fn encode_file(file_name: &str, file_data: &[u8], seed9: &[u8; 9], strength: u8) -> (pnk: Vec<
    u8,
>)
    ensures
        pnk@ == pack_spec(
            file_payload_spec(file_name@, file_data@),
            PAYLOAD_TYPE_FILE,
            seed9@,
            strength,
        ),
{
    let payload = build_file_payload(file_name, file_data);
    pack(payload.as_slice(), PAYLOAD_TYPE_FILE, seed9, strength)
}

/// Decodes the artifact of a file into its name and its content.
pub fn decode_file(pnk_data: &[u8]) -> (res: Result<(String, Vec<u8>), PackageError>)
    ensures
        match decode_file_spec(pnk_data@) {
            Ok((name, data)) => res is Ok && res->Ok_0.0@ == name && res->Ok_0.1@ == data,
            Err(e) => res is Err && res->Err_0 == e,
        },
{
    match unpack_typed(pnk_data, PAYLOAD_TYPE_FILE) {
        Err(e) => Err(e),
        Ok(payload) => match parse_file_payload(payload.as_slice()) {
            Err(e) => Err(e),
            Ok((file_name, file_data)) => Ok((file_name, slice_to_vec(file_data))),
        },
    }
}

/// Encodes raw bytes as an artifact.
pub fn encode_raw(data: &[u8], seed9: &[u8; 9], strength: u8) -> (pnk: Vec<u8>)
    ensures
        pnk@ == pack_spec(data@, PAYLOAD_TYPE_RAW, seed9@, strength),
{
    pack(data, PAYLOAD_TYPE_RAW, seed9, strength)
}

/// Decodes the artifact of raw bytes.
pub fn decode_raw(pnk_data: &[u8]) -> (res: Result<Vec<u8>, PackageError>)
    ensures
        match unpack_typed_spec(pnk_data@, PAYLOAD_TYPE_RAW) {
            Ok(payload) => res is Ok && res->Ok_0@ == payload,
            Err(e) => res is Err && res->Err_0 == e,
        },
{
    unpack_typed(pnk_data, PAYLOAD_TYPE_RAW)
}

/// What is to be packed: one file, or the entries of a folder.
#[derive(Debug, Clone, PartialEq, Eq)]
pub enum PackageInput {
    File { name: String, data: Vec<u8> },
    Folder(Vec<FolderEntry>),
}

/// What an artifact was unpacked to.
#[derive(Debug, Clone, PartialEq, Eq)]
pub enum Unpacked {
    Raw(Vec<u8>),
    File { name: String, data: Vec<u8> },
    Folder(Vec<ArchiveEntry>),
}

/// An unpacked artifact as plain values.
pub ghost enum UnpackedView {
    Raw(Seq<u8>),
    File(Seq<char>, Seq<u8>),
    Folder(Seq<(Seq<char>, bool, Seq<u8>)>),
}

impl View for Unpacked {
    type V = UnpackedView;

    open spec fn view(&self) -> UnpackedView {
        match self {
            Unpacked::Raw(data) => UnpackedView::Raw(data@),
            Unpacked::File { name, data } => UnpackedView::File(name@, data@),
            Unpacked::Folder(entries) => UnpackedView::Folder(entries_view(entries@)),
        }
    }
}

/// The entries of the folder that an artifact carries.
pub open spec fn decode_folder_spec(data: Seq<u8>) -> Result<
    Seq<(Seq<char>, bool, Seq<u8>)>,
    PackageError,
> {
    match unpack_typed_spec(data, PAYLOAD_TYPE_ZIP) {
        Err(e) => Err(e),
        Ok(zip_data) => match extract_spec(zip_data) {
            None => Err(PackageError::Archive),
            Some(entries) => Ok(entries),
        },
    }
}

/// What an artifact is unpacked to, by the payload type that it carries.
pub open spec fn decode_auto_spec(data: Seq<u8>) -> Result<UnpackedView, PackageError> {
    match unpack_spec(data) {
        Err(e) => Err(e),
        Ok((payload_type, payload)) => if payload_type == PAYLOAD_TYPE_RAW {
            Ok(UnpackedView::Raw(payload))
        } else if payload_type == PAYLOAD_TYPE_FILE {
            match parse_file_payload_spec(payload) {
                Err(e) => Err(e),
                Ok((name, content)) => Ok(UnpackedView::File(name, content)),
            }
        } else if payload_type == PAYLOAD_TYPE_ZIP {
            match extract_spec(payload) {
                None => Err(PackageError::Archive),
                Some(entries) => Ok(UnpackedView::Folder(entries)),
            }
        } else {
            Err(PackageError::UnknownType(payload_type))
        },
    }
}

/// The artifact of the folder with the entries `entries`: that of their
/// archive, where they have one.
pub open spec fn encode_folder_spec(entries: Seq<FolderEntry>, seed: Seq<u8>, strength: u8) -> Result<
    Seq<u8>,
    PackageError,
> {
    match create_zip_spec(entries) {
        Some(zip_data) => Ok(pack_spec(zip_data, PAYLOAD_TYPE_ZIP, seed, strength)),
        None => Err(PackageError::Archive),
    }
}

/// Archives the entries of a folder and encodes the archive as an
/// artifact. It fails where the entries have no archive.
pub fn encode_folder(entries: &Vec<FolderEntry>, seed9: &[u8; 9], strength: u8) -> (res: Result<
    Vec<u8>,
    PackageError,
>)
    ensures
        match encode_folder_spec(entries@, seed9@, strength) {
            Ok(pnk) => res is Ok && res->Ok_0@ == pnk,
            Err(e) => res is Err && res->Err_0 == e,
        },
{
    match create_zip_from_folder(entries) {
        Err(_) => Err(PackageError::Archive),
        Ok(zip_data) => Ok(pack(zip_data.as_slice(), PAYLOAD_TYPE_ZIP, seed9, strength)),
    }
}

/// Decodes the artifact of a folder into the entries of its archive.
pub fn decode_folder(pnk_data: &[u8]) -> (res: Result<Vec<ArchiveEntry>, PackageError>)
    ensures
        match decode_folder_spec(pnk_data@) {
            Ok(entries) => res is Ok && entries_view(res->Ok_0@) == entries,
            Err(e) => res is Err && res->Err_0 == e,
        },
{
    match unpack_typed(pnk_data, PAYLOAD_TYPE_ZIP) {
        Err(e) => Err(e),
        Ok(zip_data) => match extract_zip_to_folder(zip_data.as_slice()) {
            Err(_) => Err(PackageError::Archive),
            Ok(entries) => Ok(entries),
        },
    }
}

/// Encodes a file as a file and a folder as a folder.
pub fn encode_auto(input: &PackageInput, seed9: &[u8; 9], strength: u8) -> (res: Result<
    Vec<u8>,
    PackageError,
>)
    ensures
        match input {
            PackageInput::File { name, data } => res is Ok && res->Ok_0@ == pack_spec(
                file_payload_spec(name@, data@),
                PAYLOAD_TYPE_FILE,
                seed9@,
                strength,
            ),
            PackageInput::Folder(entries) => match encode_folder_spec(entries@, seed9@, strength) {
                Ok(pnk) => res is Ok && res->Ok_0@ == pnk,
                Err(e) => res is Err && res->Err_0 == e,
            },
        },
{
    match input {
        PackageInput::File { name, data } => Ok(
            encode_file(name.as_str(), data.as_slice(), seed9, strength),
        ),
        PackageInput::Folder(entries) => encode_folder(entries, seed9, strength),
    }
}

/// Decodes an artifact by the payload type that it carries.
pub fn decode_auto(pnk_data: &[u8]) -> (res: Result<Unpacked, PackageError>)
    ensures
        match decode_auto_spec(pnk_data@) {
            Ok(unpacked) => res is Ok && res->Ok_0@ == unpacked,
            Err(e) => res is Err && res->Err_0 == e,
        },
{
    let (payload_type, payload) = match unpack(pnk_data) {
        Err(e) => { return Err(e); },
        Ok(carried) => carried,
    };
    if payload_type == PAYLOAD_TYPE_RAW {
        Ok(Unpacked::Raw(payload))
    } else if payload_type == PAYLOAD_TYPE_FILE {
        match parse_file_payload(payload.as_slice()) {
            Err(e) => Err(e),
            Ok((name, content)) => Ok(Unpacked::File { name, data: slice_to_vec(content) }),
        }
    } else if payload_type == PAYLOAD_TYPE_ZIP {
        match extract_zip_to_folder(payload.as_slice()) {
            Err(_) => Err(PackageError::Archive),
            Ok(entries) => Ok(Unpacked::Folder(entries)),
        }
    } else {
        Err(PackageError::UnknownType(payload_type))
    }
}

impl Unpacked {
    /// The names of the files that writing this out produces: `data.bin`
    /// for raw bytes, the file's name for a file, and for a folder the
    /// names of the files among its entries.
    pub open spec fn file_names_spec(self) -> Seq<Seq<char>> {
        match self {
            Unpacked::Raw(_) => seq!["data.bin"@],
            Unpacked::File { name, data } => seq![name@],
            Unpacked::Folder(entries) => file_names_spec(entries@),
        }
    }

    /// Lists the names of the files that writing this out produces.
    pub fn file_names(&self) -> (names: Vec<String>)
        ensures
            names_view(names@) == self.file_names_spec(),
    {
        match self {
            Unpacked::Raw(_) => {
                let mut names: Vec<String> = Vec::new();
                names.push(String::from_str("data.bin"));
                assert(names_view(names@) =~= seq!["data.bin"@]);
                names
            },
            Unpacked::File { name, data } => {
                let mut names: Vec<String> = Vec::new();
                names.push(name.clone());
                assert(names_view(names@) =~= seq![name@]);
                names
            },
            Unpacked::Folder(entries) => extracted_files(entries),
        }
    }
}

} // verus!
