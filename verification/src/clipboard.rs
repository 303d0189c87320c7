//! The clipboard channel, in both directions: texts, images and files.
//!
//! What the page has put on its clipboard is held until the server asks for it. What
//! the server has on its own clipboard is fetched: a text or an image at once, files
//! when the user asks for them, each by its size and then in chunks.

use std::collections::HashMap;

use ironrdp::cliprdr::pdu::{FileContentsResponse, FormatDataResponse};
use ironrdp_cliprdr_format::bitmap;
use vstd::prelude::*;

use crate::text::{is_empty_text, same_text};
use crate::utf16::{
    bytes_of, decode, encode, law_terminated_round_trip, law_units_of_bytes, text_bytes, units_of, until_zero,
    utf16le_to_string,
};
use crate::wire::{copied, law_le64_round_trip, le16_bytes, le64_at, le64_bytes};

verus! {

broadcast use vstd::std_specs::hash::group_hash_axioms;

/// How many bytes of a file one request asks for: typical clipboard files come in one
/// round trip.
pub const CHUNK_SIZE: u32 = 0x40_0000;

/// The format of a text in UTF-16.
pub const CF_UNICODETEXT: u32 = 13;

/// The format of a device-independent bitmap.
pub const CF_DIB: u32 = 8;

/// The format of a device-independent bitmap with a version 5 header.
pub const CF_DIBV5: u32 = 17;

/// The name under which a list of files is offered.
pub const FORMAT_NAME_FILE_LIST: &'static str = "FileGroupDescriptorW";

/// A request for the size of a file.
pub const FILE_CONTENTS_SIZE: u32 = 1;

/// A request for a run of a file's bytes.
pub const FILE_CONTENTS_RANGE: u32 = 2;

/// An ordinary file.
pub const FILE_ATTRIBUTE_NORMAL: u32 = 0x80;

/// Capability: formats have long names.
pub const USE_LONG_FORMAT_NAMES: u32 = 2;

/// Capability: files can be sent.
pub const STREAM_FILECLIP_ENABLED: u32 = 4;

/// A format that an end offers.
#[derive(Debug, PartialEq, Eq)]
pub struct ClipboardFormat {
    pub id: u32,
    pub name: Option<String>,
}

/// A format, as a value.
pub struct FormatView {
    pub id: u32,
    pub name: Option<Seq<char>>,
}

impl View for ClipboardFormat {
    type V = FormatView;

    open spec fn view(&self) -> FormatView {
        FormatView {
            id: self.id,
            name: match self.name {
                Some(name) => Some(name@),
                None => None,
            },
        }
    }
}

/// A request for the size or for a part of a file.
#[derive(Debug, Clone, Copy, PartialEq, Eq)]
pub struct FileContentsRequest {
    pub stream_id: u32,
    pub index: i32,
    pub flags: u32,
    pub position: u64,
    pub requested_size: u32,
    pub data_id: Option<u32>,
}

/// A file that an end offers.
#[derive(Debug, PartialEq, Eq)]
pub struct FileDescriptor {
    pub name: String,
    pub file_size: Option<u64>,
    pub attributes: Option<u32>,
}

/// A download under way.
#[derive(Debug, PartialEq, Eq)]
pub enum FileTransferState {
    AwaitingSize { file_index: i32, name: String, data_id: Option<u32> },
    AwaitingData { file_index: i32, name: String, total: u64, data: Vec<u8>, data_id: Option<u32> },
}

/// A download under way, as a value.
pub enum TransferView {
    AwaitingSize { file_index: i32, name: Seq<char>, data_id: Option<u32> },
    AwaitingData { file_index: i32, name: Seq<char>, total: u64, data: Seq<u8>, data_id: Option<u32> },
}

impl View for FileTransferState {
    type V = TransferView;

    open spec fn view(&self) -> TransferView {
        match *self {
            FileTransferState::AwaitingSize { file_index, name, data_id } => TransferView::AwaitingSize {
                file_index,
                name: name@,
                data_id,
            },
            FileTransferState::AwaitingData { file_index, name, total, data, data_id } => TransferView::AwaitingData {
                file_index,
                name: name@,
                total,
                data: data@,
                data_id,
            },
        }
    }
}

/// What comes of an event in a download.
#[derive(Debug, PartialEq, Eq)]
pub enum FileStep {
    /// A request to send.
    Request(FileContentsRequest),
    /// The whole file, to hand to the user.
    Download { name: String, data: Vec<u8> },
    Nothing,
}

/// What comes of an event in a download, as a value.
pub enum StepView {
    Request(FileContentsRequest),
    Download { name: Seq<char>, data: Seq<u8> },
    Nothing,
}

impl View for FileStep {
    type V = StepView;

    open spec fn view(&self) -> StepView {
        match *self {
            FileStep::Request(request) => StepView::Request(request),
            FileStep::Download { name, data } => StepView::Download { name: name@, data: data@ },
            FileStep::Nothing => StepView::Nothing,
        }
    }
}

/// What is done when the server's clipboard changes.
#[derive(Debug, Clone, Copy, PartialEq, Eq)]
pub enum RemoteCopyAction {
    /// Ask for the contents in this format.
    Paste(u32),
    /// Tell the page that there are files to download.
    AnnounceFiles,
    Nothing,
}

/// What the page is to put on its clipboard.
#[derive(Debug, PartialEq, Eq)]
pub enum ClipboardNotice {
    Text(String),
    Image(Vec<u8>),
}

/// What the page is to put on its clipboard, as a value.
pub enum NoticeView {
    Text(Seq<char>),
    Image(Seq<u8>),
}

impl View for ClipboardNotice {
    type V = NoticeView;

    open spec fn view(&self) -> NoticeView {
        match *self {
            ClipboardNotice::Text(text) => NoticeView::Text(text@),
            ClipboardNotice::Image(png) => NoticeView::Image(png@),
        }
    }
}

/// What the page has put on its clipboard, and the format under which the server
/// offers files.
#[derive(Debug, PartialEq, Eq)]
pub struct LocalClipboard {
    pub text: Option<String>,
    pub image: Option<Vec<u8>>,
    pub files: Vec<(String, Vec<u8>)>,
    pub remote_file_format: Option<u32>,
}

/// The local clipboard, as a value.
pub struct LocalView {
    pub text: Option<Seq<char>>,
    pub image: Option<Seq<u8>>,
    pub files: Seq<(Seq<char>, Seq<u8>)>,
    pub remote_file_format: Option<u32>,
}

impl View for LocalClipboard {
    type V = LocalView;

    open spec fn view(&self) -> LocalView {
        LocalView {
            text: match self.text {
                Some(text) => Some(text@),
                None => None,
            },
            image: match self.image {
                Some(image) => Some(image@),
                None => None,
            },
            files: self.files@.map_values(|file: (String, Vec<u8>)| (file.0@, file.1@)),
            remote_file_format: self.remote_file_format,
        }
    }
}

impl LocalView {
    /// A text and an image are never held together: the later replaces the earlier.
    pub open spec fn valid(self) -> bool {
        !(self.text is Some && self.image is Some)
    }
}

/// A format that has no name.
pub open spec fn plain_format(id: u32) -> FormatView {
    FormatView { id, name: None }
}

/// The formats of a list, as values.
pub open spec fn format_views(formats: Seq<ClipboardFormat>) -> Seq<FormatView> {
    formats.map_values(|format: ClipboardFormat| format@)
}

fn format_of(id: u32) -> (format: ClipboardFormat)
    ensures
        format@ == plain_format(id),
{
    ClipboardFormat { id, name: None }
}

impl LocalClipboard {
    pub fn new() -> (local: Self)
        ensures
            local@.valid(),
            local@ == (LocalView { text: None, image: None, files: seq![], remote_file_format: None }),
    {
        let local = LocalClipboard { text: None, image: None, files: Vec::new(), remote_file_format: None };
        assert(local@.files =~= seq![]);
        local
    }
}

/// Holds a text and gives the formats to offer for it.
pub fn set_pending_clipboard(text: String, local: &mut LocalClipboard) -> (formats: Vec<ClipboardFormat>)
    ensures
        final(local)@ == (LocalView { text: Some(text@), image: None, ..old(local)@ }),
        final(local)@.valid(),
        format_views(formats@) == seq![plain_format(CF_UNICODETEXT)],
{
    local.image = None;
    local.text = Some(text);
    let mut formats: Vec<ClipboardFormat> = Vec::new();
    formats.push(format_of(CF_UNICODETEXT));
    assert(format_views(formats@) =~= seq![plain_format(CF_UNICODETEXT)]);
    formats
}

/// Holds an image and gives the formats to offer for it.
pub fn set_pending_clipboard_image(png_bytes: &[u8], local: &mut LocalClipboard) -> (formats: Vec<ClipboardFormat>)
    ensures
        final(local)@ == (LocalView { text: None, image: Some(png_bytes@), ..old(local)@ }),
        final(local)@.valid(),
        format_views(formats@) == seq![plain_format(CF_DIBV5)],
{
    local.text = None;
    local.image = Some(copied(png_bytes));
    let mut formats: Vec<ClipboardFormat> = Vec::new();
    formats.push(format_of(CF_DIBV5));
    assert(format_views(formats@) =~= seq![plain_format(CF_DIBV5)]);
    formats
}

/// Holds a file in the place of all that was held, and describes it.
pub fn set_pending_clipboard_file(name: String, bytes: &[u8], local: &mut LocalClipboard) -> (file: FileDescriptor)
    ensures
        final(local)@ == (LocalView { text: None, image: None, files: seq![(name@, bytes@)], ..old(local)@ }),
        final(local)@.valid(),
        file.name@ == name@,
        file.file_size == Some(bytes@.len() as u64),
        file.attributes == Some(FILE_ATTRIBUTE_NORMAL),
{
    let size: u64 = bytes.len() as u64;
    let mut files: Vec<(String, Vec<u8>)> = Vec::new();
    files.push((name.clone(), copied(bytes)));
    local.files = files;
    local.text = None;
    local.image = None;
    assert(local@.files =~= seq![(name@, bytes@)]);
    FileDescriptor { name, file_size: Some(size), attributes: Some(FILE_ATTRIBUTE_NORMAL) }
}

/// The format to ask for when the user wants the server's files.
pub fn trigger_remote_file_download(local: &LocalClipboard) -> (format: Option<u32>)
    ensures
        format == local@.remote_file_format,
{
    local.remote_file_format
}

/// The formats to offer for what is held. Files are offered on their own.
pub open spec fn offered(local: LocalView) -> Seq<FormatView> {
    (if local.text is Some {
        seq![plain_format(CF_UNICODETEXT)]
    } else {
        seq![]
    }) + (if local.image is Some {
        seq![plain_format(CF_DIBV5)]
    } else {
        seq![]
    })
}

/// Whether a format is among those offered.
pub open spec fn has_format(formats: Seq<FormatView>, id: u32) -> bool {
    exists|i: int| 0 <= i < formats.len() && (#[trigger] formats[i]).id == id
}

/// The image format to ask for: the newer one is preferred.
pub open spec fn image_format(formats: Seq<FormatView>) -> Option<u32> {
    if has_format(formats, CF_DIBV5) {
        Some(CF_DIBV5)
    } else if has_format(formats, CF_DIB) {
        Some(CF_DIB)
    } else {
        None
    }
}

/// The first format with the name of a list of files.
pub open spec fn file_format(formats: Seq<FormatView>) -> Option<u32>
    decreases formats.len(),
{
    if formats.len() == 0 {
        None
    } else if formats[0].name == Some(FORMAT_NAME_FILE_LIST@) {
        Some(formats[0].id)
    } else {
        file_format(formats.skip(1))
    }
}

/// What is done about the server's formats: a text is preferred to an image, and an
/// image to files.
pub open spec fn copy_action(
    enable_text: bool,
    enable_file: bool,
    formats: Seq<FormatView>,
) -> RemoteCopyAction {
    if enable_text && has_format(formats, CF_UNICODETEXT) {
        RemoteCopyAction::Paste(CF_UNICODETEXT)
    } else if enable_text && image_format(formats) is Some {
        RemoteCopyAction::Paste(image_format(formats)->0)
    } else if enable_file && file_format(formats) is Some {
        RemoteCopyAction::AnnounceFiles
    } else {
        RemoteCopyAction::Nothing
    }
}

fn offers(formats: &[ClipboardFormat], id: u32) -> (found: bool)
    ensures
        found == has_format(format_views(formats@), id),
{
    let ghost views = format_views(formats@);
    let mut i: usize = 0;
    while i < formats.len()
        invariant
            i <= formats@.len(),
            views == format_views(formats@),
            forall|j: int| 0 <= j < i ==> (#[trigger] views[j]).id != id,
        decreases formats@.len() - i,
    {
        assert(views[i as int] == formats@[i as int]@);
        if formats[i].id == id {
            return true;
        }
        i = i + 1;
    }
    false
}

/// The image format to ask for.
pub fn pick_image_format(formats: &[ClipboardFormat]) -> (format: Option<u32>)
    ensures
        format == image_format(format_views(formats@)),
{
    if offers(formats, CF_DIBV5) {
        Some(CF_DIBV5)
    } else if offers(formats, CF_DIB) {
        Some(CF_DIB)
    } else {
        None
    }
}

fn find_file_format(formats: &[ClipboardFormat]) -> (format: Option<u32>)
    ensures
        format == file_format(format_views(formats@)),
{
    let ghost views = format_views(formats@);
    let mut i: usize = 0;
    assert(views.skip(0) =~= views);
    while i < formats.len()
        invariant
            i <= formats@.len(),
            views == format_views(formats@),
            file_format(views) == file_format(views.skip(i as int)),
        decreases formats@.len() - i,
    {
        proof {
            let rest = views.skip(i as int);
            assert(rest[0] == formats@[i as int]@);
            assert(rest.skip(1) =~= views.skip(i + 1));
        }
        match &formats[i].name {
            Some(name) => {
                if same_text(name.as_str(), FORMAT_NAME_FILE_LIST) {
                    return Some(formats[i].id);
                }
            }
            None => {}
        }
        i = i + 1;
    }
    None
}

/// The PNG image that `ironrdp_cliprdr_format::bitmap::dib_to_png` makes of a bitmap.
pub uninterp spec fn png_of_dib(dib: Seq<u8>) -> Option<Seq<u8>>;

/// The PNG image that `ironrdp_cliprdr_format::bitmap::dibv5_to_png` makes of a bitmap.
pub uninterp spec fn png_of_dibv5(dib: Seq<u8>) -> Option<Seq<u8>>;

/// The bitmap that `ironrdp_cliprdr_format::bitmap::png_to_cf_dibv5` makes of a PNG image.
pub uninterp spec fn dibv5_of_png(png: Seq<u8>) -> Option<Seq<u8>>;

/// Bytes, as a value.
pub open spec fn bytes_view(bytes: Option<Vec<u8>>) -> Option<Seq<u8>> {
    match bytes {
        Some(b) => Some(b@),
        None => None,
    }
}

/// `ironrdp_cliprdr_format::bitmap::dib_to_png`, without what it says of an error.
/// Claimed: it depends on the bytes alone.
#[verifier::external_body]
fn dib_to_png(dib: &[u8]) -> (png: Option<Vec<u8>>)
    ensures
        bytes_view(png) == png_of_dib(dib@),
{
    bitmap::dib_to_png(dib).ok()
}

/// `ironrdp_cliprdr_format::bitmap::dibv5_to_png`, without what it says of an error.
/// Claimed: it depends on the bytes alone.
#[verifier::external_body]
fn dibv5_to_png(dib: &[u8]) -> (png: Option<Vec<u8>>)
    ensures
        bytes_view(png) == png_of_dibv5(dib@),
{
    bitmap::dibv5_to_png(dib).ok()
}

/// `ironrdp_cliprdr_format::bitmap::png_to_cf_dibv5`, without what it says of an error.
/// Claimed: it depends on the bytes alone.
#[verifier::external_body]
fn png_to_cf_dibv5(png: &[u8]) -> (dib: Option<Vec<u8>>)
    ensures
        bytes_view(dib) == dibv5_of_png(png@),
{
    bitmap::png_to_cf_dibv5(png).ok()
}

/// The contents of `FormatDataResponse::new_unicode_string` of `ironrdp-cliprdr`.
/// Claimed: the little-endian UTF-16 of the text, with a zero unit behind it.
#[verifier::external_body]
fn unicode_contents(text: &str) -> (data: Vec<u8>)
    ensures
        data@ == text_bytes(text@) + seq![0u8, 0u8],
{
    FormatDataResponse::new_unicode_string(text).into_data().into_owned()
}

/// `FileContentsResponse::data_as_size` of `ironrdp-cliprdr`. Claimed: eight bytes are
/// a little-endian integer, any other number of bytes is none.
#[verifier::external_body]
fn contents_as_size(data: &[u8]) -> (size: Option<u64>)
    ensures
        size == (if data@.len() == 8 {
            Some(le64_at(data@, 0))
        } else {
            None
        }),
{
    FileContentsResponse::new_data_response(0, data).data_as_size().ok()
}

/// The contents of `FileContentsResponse::new_size_response` of `ironrdp-cliprdr`.
/// Claimed: the eight little-endian bytes of the size.
#[verifier::external_body]
fn size_contents(size: u64) -> (data: Vec<u8>)
    ensures
        data@ == le64_bytes(size),
{
    FileContentsResponse::new_size_response(0, size).data().to_vec()
}

/// The client's end of the clipboard channel.
pub struct WasmCliprdrBackend {
    /// The format last asked for.
    pub pending_format: Option<u32>,
    pub next_stream_id: u32,
    pub file_transfers: HashMap<u32, FileTransferState>,
    pub enable_text: bool,
    pub enable_file: bool,
}

/// The client's end of the clipboard channel, as a value.
pub struct ClipView {
    pub pending_format: Option<u32>,
    pub next_stream_id: u32,
    pub transfers: Map<u32, TransferView>,
    pub enable_text: bool,
    pub enable_file: bool,
}

impl View for WasmCliprdrBackend {
    type V = ClipView;

    open spec fn view(&self) -> ClipView {
        ClipView {
            pending_format: self.pending_format,
            next_stream_id: self.next_stream_id,
            transfers: self.file_transfers@.map_values(|state: FileTransferState| state@),
            enable_text: self.enable_text,
            enable_file: self.enable_file,
        }
    }
}

impl ClipView {
    /// Stream numbers are not zero, and what is still waited for is not complete.
    pub open spec fn valid(self) -> bool {
        &&& self.next_stream_id != 0
        &&& forall|id: u32|
            #![trigger self.transfers[id]]
            self.transfers.contains_key(id) ==> id != 0 && (self.transfers[id] matches TransferView::AwaitingData {
                total,
                data,
                ..
            } ==> data.len() < total)
    }
}

/// The stream number after `id`: zero is left out.
pub open spec fn id_after(id: u32) -> u32 {
    if id == u32::MAX {
        1
    } else {
        (id + 1) as u32
    }
}

/// Starts a download with a request for the size.
pub open spec fn ask_size(
    clip: ClipView,
    file_index: i32,
    name: Seq<char>,
    data_id: Option<u32>,
) -> (ClipView, FileContentsRequest) {
    let stream_id = clip.next_stream_id;
    (
        ClipView {
            next_stream_id: id_after(stream_id),
            transfers: clip.transfers.insert(stream_id, TransferView::AwaitingSize { file_index, name, data_id }),
            ..clip
        },
        FileContentsRequest {
            stream_id,
            index: file_index,
            flags: FILE_CONTENTS_SIZE,
            position: 0,
            requested_size: 8,
            data_id,
        },
    )
}

/// Starts a download for each file.
pub open spec fn ask_sizes(
    clip: ClipView,
    names: Seq<Seq<char>>,
    data_id: Option<u32>,
) -> (ClipView, Seq<FileContentsRequest>)
    decreases names.len(),
{
    if names.len() == 0 {
        (clip, seq![])
    } else {
        let (before, requests) = ask_sizes(clip, names.drop_last(), data_id);
        let (after, request) = ask_size(before, (names.len() - 1) as i32, names.last(), data_id);
        (after, requests.push(request))
    }
}

/// How many bytes to ask for next.
pub open spec fn next_chunk(total: u64, have: int) -> int {
    if total <= have {
        0
    } else if total - have <= CHUNK_SIZE {
        total - have
    } else {
        CHUNK_SIZE as int
    }
}

/// Goes on with a download: asks for the next chunk, or hands out what is complete.
pub open spec fn ask_range(
    clip: ClipView,
    file_index: i32,
    name: Seq<char>,
    total: u64,
    data: Seq<u8>,
    data_id: Option<u32>,
) -> (ClipView, StepView) {
    let chunk = next_chunk(total, data.len() as int);
    if chunk == 0 {
        (clip, StepView::Download { name, data })
    } else {
        let stream_id = clip.next_stream_id;
        (
            ClipView {
                next_stream_id: id_after(stream_id),
                transfers: clip.transfers.insert(
                    stream_id,
                    TransferView::AwaitingData { file_index, name, total, data, data_id },
                ),
                ..clip
            },
            StepView::Request(
                FileContentsRequest {
                    stream_id,
                    index: file_index,
                    flags: FILE_CONTENTS_RANGE,
                    position: data.len() as u64,
                    requested_size: chunk as u32,
                    data_id,
                },
            ),
        )
    }
}

/// What an answer to a request does to the downloads.
pub open spec fn contents_step(clip: ClipView, stream_id: u32, error: bool, data: Seq<u8>) -> (ClipView, StepView) {
    let rest = ClipView { transfers: clip.transfers.remove(stream_id), ..clip };
    if error || !clip.transfers.contains_key(stream_id) {
        (rest, StepView::Nothing)
    } else {
        match clip.transfers[stream_id] {
            TransferView::AwaitingSize { file_index, name, data_id } => if data.len() == 8 {
                ask_range(rest, file_index, name, le64_at(data, 0), seq![], data_id)
            } else {
                (rest, StepView::Nothing)
            },
            TransferView::AwaitingData { file_index, name, total, data: before, data_id } => ask_range(
                rest,
                file_index,
                name,
                total,
                before + data,
                data_id,
            ),
        }
    }
}

/// The answer to the server's question for the contents in a format; none is an error.
pub open spec fn format_reply(clip: ClipView, local: LocalView, format: u32) -> Option<Seq<u8>> {
    if !clip.enable_text {
        None
    } else if format == CF_UNICODETEXT {
        Some(
            text_bytes(
                match local.text {
                    Some(text) => text,
                    None => seq![],
                },
            ) + seq![0u8, 0u8],
        )
    } else if format == CF_DIBV5 {
        match local.image {
            Some(png) => dibv5_of_png(png),
            None => None,
        }
    } else {
        None
    }
}

/// The text that UTF-16 bytes hold, up to a zero unit.
pub open spec fn text_of(data: Seq<u8>) -> Seq<char> {
    decode(until_zero(units_of(data)))
}

/// What the page is told of the contents that came in the format last asked for.
pub open spec fn arrived(format: Option<u32>, data: Seq<u8>) -> Option<NoticeView> {
    match format {
        Some(id) => if id == CF_UNICODETEXT {
            if text_of(data).len() == 0 {
                None
            } else {
                Some(NoticeView::Text(text_of(data)))
            }
        } else if id == CF_DIBV5 {
            match png_of_dibv5(data) {
                Some(png) => Some(NoticeView::Image(png)),
                None => None,
            }
        } else if id == CF_DIB {
            match png_of_dib(data) {
                Some(png) => Some(NoticeView::Image(png)),
                None => None,
            }
        } else {
            None
        },
        None => None,
    }
}

/// A run of a file: shorter where the file ends.
pub open spec fn range_of(file: Seq<u8>, start: int, size: int) -> Seq<u8> {
    file.subrange(
        start,
        if start + size < file.len() {
            start + size
        } else {
            file.len() as int
        },
    )
}

/// Where a requested range starts, as a machine index.
pub open spec fn range_start(request: FileContentsRequest) -> int {
    (request.position as int) % (usize::MAX + 1)
}

/// Whether the file that a request asks for is there.
pub open spec fn has_file(local: LocalView, request: FileContentsRequest) -> bool {
    0 <= request.index < local.files.len()
}

/// Whether a request for a range starts inside its file and can be counted.
pub open spec fn range_fits(clip: ClipView, local: LocalView, request: FileContentsRequest) -> bool {
    clip.enable_file && has_file(local, request) && request.flags & FILE_CONTENTS_SIZE == 0 ==> {
        &&& range_start(request) <= local.files[request.index as int].1.len()
        &&& range_start(request) + request.requested_size <= usize::MAX
    }
}

/// The answer to the server's request for a file; none is an error.
pub open spec fn contents_reply(clip: ClipView, local: LocalView, request: FileContentsRequest) -> Option<Seq<u8>> {
    if !clip.enable_file || !has_file(local, request) {
        None
    } else {
        let file = local.files[request.index as int].1;
        if request.flags & FILE_CONTENTS_SIZE != 0 {
            Some(le64_bytes(file.len() as u64))
        } else {
            Some(range_of(file, range_start(request), request.requested_size as int))
        }
    }
}

/// What the page is told of an image that could be read.
pub fn image_notice(png: Option<Vec<u8>>) -> (notice: Option<ClipboardNotice>)
    ensures
        match png {
            Some(bytes) => notice is Some && notice->0@ == NoticeView::Image(bytes@),
            None => notice is None,
        },
{
    match png {
        Some(bytes) => Some(ClipboardNotice::Image(bytes)),
        None => None,
    }
}

proof fn lemma_transfers(before: Map<u32, FileTransferState>, id: u32, state: FileTransferState)
    ensures
        before.insert(id, state).map_values(|s: FileTransferState| s@) == before.map_values(
            |s: FileTransferState| s@,
        ).insert(id, state@),
{
    let f = |s: FileTransferState| s@;
    assert(before.insert(id, state).map_values(f) =~= before.map_values(f).insert(id, state@));
}

impl WasmCliprdrBackend {
    pub fn new(enable_text: bool, enable_file: bool) -> (backend: Self)
        ensures
            backend@.valid(),
            backend@ == (ClipView {
                pending_format: None,
                next_stream_id: 1,
                transfers: Map::empty(),
                enable_text,
                enable_file,
            }),
    {
        let backend = WasmCliprdrBackend {
            pending_format: None,
            next_stream_id: 1,
            file_transfers: HashMap::new(),
            enable_text,
            enable_file,
        };
        assert(backend@.transfers =~= Map::empty());
        backend
    }

    /// The capabilities to announce.
    pub fn client_capabilities(&self) -> (flags: u32)
        ensures
            flags == (if self@.enable_file {
                USE_LONG_FORMAT_NAMES | STREAM_FILECLIP_ENABLED
            } else {
                USE_LONG_FORMAT_NAMES
            }),
            self@.enable_file ==> flags == 6,
            !self@.enable_file ==> flags == 2,
    {
        assert(2u32 | 4u32 == 6) by (bit_vector);
        if self.enable_file {
            USE_LONG_FORMAT_NAMES | STREAM_FILECLIP_ENABLED
        } else {
            USE_LONG_FORMAT_NAMES
        }
    }

    fn alloc_stream_id(&mut self) -> (id: u32)
        ensures
            id == old(self)@.next_stream_id,
            final(self)@ == (ClipView { next_stream_id: id_after(id), ..old(self)@ }),
            final(self).file_transfers == old(self).file_transfers,
    {
        let id: u32 = self.next_stream_id;
        let next: u32 = id.wrapping_add(1);
        self.next_stream_id = if next < 1 {
            1
        } else {
            next
        };
        id
    }

    fn request_file_size(&mut self, file_index: i32, name: String, data_id: Option<u32>) -> (request:
        FileContentsRequest)
        requires
            old(self)@.valid(),
        ensures
            final(self)@.valid(),
            (final(self)@, request) == ask_size(old(self)@, file_index, name@, data_id),
    {
        let stream_id = self.alloc_stream_id();
        let state = FileTransferState::AwaitingSize { file_index, name, data_id };
        proof {
            lemma_transfers(self.file_transfers@, stream_id, state);
        }
        self.file_transfers.insert(stream_id, state);
        FileContentsRequest {
            stream_id,
            index: file_index,
            flags: FILE_CONTENTS_SIZE,
            position: 0,
            requested_size: 8,
            data_id,
        }
    }

    fn request_file_range(
        &mut self,
        file_index: i32,
        name: String,
        total: u64,
        data: Vec<u8>,
        data_id: Option<u32>,
    ) -> (step: FileStep)
        requires
            old(self)@.valid(),
        ensures
            final(self)@.valid(),
            (final(self)@, step@) == ask_range(old(self)@, file_index, name@, total, data@, data_id),
    {
        let position: u64 = data.len() as u64;
        let remaining: u64 = total.saturating_sub(position);
        let chunk: u32 = if remaining <= CHUNK_SIZE as u64 {
            remaining as u32
        } else {
            CHUNK_SIZE
        };
        if chunk == 0 {
            return FileStep::Download { name, data };
        }
        let stream_id = self.alloc_stream_id();
        let state = FileTransferState::AwaitingData { file_index, name, total, data, data_id };
        proof {
            lemma_transfers(self.file_transfers@, stream_id, state);
        }
        self.file_transfers.insert(stream_id, state);
        FileStep::Request(
            FileContentsRequest {
                stream_id,
                index: file_index,
                flags: FILE_CONTENTS_RANGE,
                position,
                requested_size: chunk,
                data_id,
            },
        )
    }

    /// The formats to offer.
    pub fn on_request_format_list(&self, local: &LocalClipboard) -> (formats: Vec<ClipboardFormat>)
        ensures
            format_views(formats@) == offered(local@),
    {
        let mut formats: Vec<ClipboardFormat> = Vec::new();
        if local.text.is_some() {
            formats.push(format_of(CF_UNICODETEXT));
        }
        if local.image.is_some() {
            formats.push(format_of(CF_DIBV5));
        }
        assert(format_views(formats@) =~= offered(local@));
        formats
    }

    /// Takes the formats that the server offers. What is asked for is remembered; the
    /// format of files is kept until the user asks for them.
    pub fn on_remote_copy(&mut self, available_formats: &[ClipboardFormat], local: &mut LocalClipboard) -> (action:
        RemoteCopyAction)
        ensures
            action == copy_action(old(self)@.enable_text, old(self)@.enable_file, format_views(available_formats@)),
            final(self)@ == (ClipView {
                pending_format: match action {
                    RemoteCopyAction::Paste(format) => Some(format),
                    _ => old(self)@.pending_format,
                },
                ..old(self)@
            }),
            final(local)@ == (LocalView {
                remote_file_format: match action {
                    RemoteCopyAction::AnnounceFiles => file_format(format_views(available_formats@)),
                    _ => old(local)@.remote_file_format,
                },
                ..old(local)@
            }),
    {
        if self.enable_text {
            if offers(available_formats, CF_UNICODETEXT) {
                self.pending_format = Some(CF_UNICODETEXT);
                return RemoteCopyAction::Paste(CF_UNICODETEXT);
            }
            match pick_image_format(available_formats) {
                Some(format) => {
                    self.pending_format = Some(format);
                    return RemoteCopyAction::Paste(format);
                }
                None => {}
            }
        }
        if self.enable_file {
            match find_file_format(available_formats) {
                Some(format) => {
                    local.remote_file_format = Some(format);
                    return RemoteCopyAction::AnnounceFiles;
                }
                None => {}
            }
        }
        RemoteCopyAction::Nothing
    }

    /// Answers the server's question for the contents in a format; none is an error.
    pub fn on_format_data_request(&self, format: u32, local: &LocalClipboard) -> (reply: Option<Vec<u8>>)
        ensures
            bytes_view(reply) == format_reply(self@, local@, format),
    {
        if !self.enable_text {
            return None;
        }
        if format == CF_UNICODETEXT {
            match &local.text {
                Some(text) => Some(unicode_contents(text.as_str())),
                None => {
                    let nothing = String::new();
                    assert(nothing@ =~= seq![]);
                    Some(unicode_contents(nothing.as_str()))
                }
            }
        } else if format == CF_DIBV5 {
            match &local.image {
                Some(png) => png_to_cf_dibv5(png.as_slice()),
                None => None,
            }
        } else {
            None
        }
    }

    /// Takes the contents that were asked for. Whatever comes, nothing is waited for
    /// afterwards.
    pub fn on_format_data_response(&mut self, error: bool, data: &[u8]) -> (notice: Option<ClipboardNotice>)
        ensures
            final(self)@ == (ClipView { pending_format: None, ..old(self)@ }),
            match notice {
                Some(n) => !error && arrived(old(self)@.pending_format, data@) == Some(n@),
                None => error || arrived(old(self)@.pending_format, data@) is None,
            },
    {
        let format = self.pending_format;
        self.pending_format = None;
        if error {
            return None;
        }
        match format {
            Some(id) => {
                if id == CF_UNICODETEXT {
                    let text = utf16le_to_string(data);
                    if is_empty_text(text.as_str()) {
                        None
                    } else {
                        Some(ClipboardNotice::Text(text))
                    }
                } else if id == CF_DIBV5 {
                    image_notice(dibv5_to_png(data))
                } else if id == CF_DIB {
                    image_notice(dib_to_png(data))
                } else {
                    None
                }
            }
            None => None,
        }
    }

    /// Starts a download for each file that the server lists.
    pub fn on_remote_file_list(&mut self, files: &[FileDescriptor], clip_data_id: Option<u32>) -> (requests: Vec<
        FileContentsRequest,
    >)
        requires
            old(self)@.valid(),
        ensures
            final(self)@.valid(),
            (final(self)@, requests@) == ask_sizes(
                old(self)@,
                files@.map_values(|file: FileDescriptor| file.name@),
                clip_data_id,
            ),
    {
        let ghost names = files@.map_values(|file: FileDescriptor| file.name@);
        let mut requests: Vec<FileContentsRequest> = Vec::new();
        let mut i: usize = 0;
        assert(names.take(0) =~= seq![]);
        while i < files.len()
            invariant
                i <= files@.len(),
                names == files@.map_values(|file: FileDescriptor| file.name@),
                self@.valid(),
                (self@, requests@) == ask_sizes(old(self)@, names.take(i as int), clip_data_id),
            decreases files@.len() - i,
        {
            proof {
                assert(names.take(i + 1).drop_last() =~= names.take(i as int));
                assert(names.take(i + 1).last() == files@[i as int].name@);
            }
            let request = self.request_file_size(
                #[verifier::truncate]
                (i as i32),
                files[i].name.clone(),
                clip_data_id,
            );
            requests.push(request);
            i = i + 1;
        }
        assert(names.take(i as int) =~= names);
        requests
    }

    /// Takes the server's answer to a request for a file.
    pub fn on_file_contents_response(&mut self, stream_id: u32, error: bool, response: &[u8]) -> (step: FileStep)
        requires
            old(self)@.valid(),
        ensures
            final(self)@.valid(),
            (final(self)@, step@) == contents_step(old(self)@, stream_id, error, response@),
    {
        let ghost before = self.file_transfers@;
        let state = self.file_transfers.remove(&stream_id);
        proof {
            let f = |s: FileTransferState| s@;
            assert(self.file_transfers@.map_values(f) =~= before.map_values(f).remove(stream_id));
            assert forall|id: u32|
                #![trigger self@.transfers[id]]
                self@.transfers.contains_key(id) implies id != 0 && (self@.transfers[id] matches TransferView::AwaitingData {
                total,
                data,
                ..
            } ==> data.len() < total) by {
                assert(old(self)@.transfers[id] == self@.transfers[id]);
            }
        }
        if error {
            return FileStep::Nothing;
        }
        match state {
            Some(FileTransferState::AwaitingSize { file_index, name, data_id }) => {
                match contents_as_size(response) {
                    Some(total) => {
                        let data: Vec<u8> = Vec::new();
                        assert(data@ =~= seq![]);
                        self.request_file_range(file_index, name, total, data, data_id)
                    }
                    None => FileStep::Nothing,
                }
            }
            Some(FileTransferState::AwaitingData { file_index, name, total, data, data_id }) => {
                let mut joined = data;
                crate::wire::put_bytes(&mut joined, response);
                self.request_file_range(file_index, name, total, joined, data_id)
            }
            None => FileStep::Nothing,
        }
    }

    /// Whether a request can be answered: its range starts inside the file.
    pub fn contents_request_fits(&self, request: FileContentsRequest, local: &LocalClipboard) -> (fits: bool)
        ensures
            fits == range_fits(self@, local@, request),
    {
        if !self.enable_file || request.index < 0 || request.index as usize >= local.files.len() {
            return true;
        }
        if request.flags & FILE_CONTENTS_SIZE != 0 {
            return true;
        }
        let file = &local.files[request.index as usize].1;
        let start: usize = index_of(request.position);
        start <= file.len() && start.checked_add(request.requested_size as usize).is_some()
    }

    /// Answers the server's request for the size or for a part of a file; none is an
    /// error.
    pub fn on_file_contents_request(&self, request: FileContentsRequest, local: &LocalClipboard) -> (reply: Option<
        Vec<u8>,
    >)
        requires
            range_fits(self@, local@, request),
        ensures
            bytes_view(reply) == contents_reply(self@, local@, request),
    {
        if !self.enable_file || request.index < 0 || request.index as usize >= local.files.len() {
            return None;
        }
        let file = &local.files[request.index as usize].1;
        assert(local@.files[request.index as int].1 == file@);
        if request.flags & FILE_CONTENTS_SIZE != 0 {
            return Some(size_contents(file.len() as u64));
        }
        let start: usize = index_of(request.position);
        let end: usize = start + request.requested_size as usize;
        let end: usize = if end < file.len() {
            end
        } else {
            file.len()
        };
        Some(copied(vstd::slice::slice_subrange(file.as_slice(), start, end)))
    }
}

/// A 64-bit position as a machine index, losing what does not fit.
fn index_of(position: u64) -> (index: usize)
    ensures
        index == (position as int) % (usize::MAX + 1),
{
    let limit: u64 = usize::MAX as u64;
    if position <= limit {
        proof {
            vstd::arithmetic::div_mod::lemma_small_mod(position as nat, (usize::MAX + 1) as nat);
        }
        position as usize
    } else {
        (position % (limit + 1)) as usize
    }
}

/// The other end of a download that offers `file`: it answers up to `rounds` requests
/// with the size and with ranges of the file. Gives what is handed to the user.
pub open spec fn served(clip: ClipView, step: StepView, file: Seq<u8>, rounds: nat) -> Option<(Seq<char>, Seq<u8>)>
    decreases rounds,
{
    match step {
        StepView::Download { name, data } => Some((name, data)),
        StepView::Nothing => None,
        StepView::Request(request) => if rounds == 0 {
            None
        } else {
            let answer = if request.flags == FILE_CONTENTS_SIZE {
                le64_bytes(file.len() as u64)
            } else {
                range_of(file, request.position as int, request.requested_size as int)
            };
            let (next, then_step) = contents_step(clip, request.stream_id, false, answer);
            served(next, then_step, file, (rounds - 1) as nat)
        },
    }
}

proof fn lemma_served_ranges(
    clip: ClipView,
    index: i32,
    name: Seq<char>,
    data_id: Option<u32>,
    file: Seq<u8>,
    have: nat,
    rounds: nat,
)
    requires
        have <= file.len() <= u64::MAX,
        rounds >= file.len() - have,
    ensures
        ({
            let (next, step) = ask_range(clip, index, name, file.len() as u64, file.take(have as int), data_id);
            served(next, step, file, rounds) == Some((name, file))
        }),
    decreases file.len() - have,
{
    let total = file.len() as u64;
    let data = file.take(have as int);
    let (next, step) = ask_range(clip, index, name, total, data, data_id);
    let chunk = next_chunk(total, have as int);
    if chunk == 0 {
        assert(data =~= file);
    } else {
        let request = step->Request_0;
        let answer = range_of(file, have as int, chunk);
        assert(answer =~= file.subrange(have as int, have + chunk));
        assert(data + answer =~= file.take(have + chunk));
        let rest = ClipView { transfers: next.transfers.remove(request.stream_id), ..next };
        assert(contents_step(next, request.stream_id, false, answer) == ask_range(
            rest,
            index,
            name,
            total,
            file.take(have + chunk),
            data_id,
        ));
        lemma_served_ranges(rest, index, name, data_id, file, (have + chunk) as nat, (rounds - 1) as nat);
    }
}

/// A download that the other end serves gives the user the file, byte for byte and
/// under its name, whatever other downloads are under way.
pub proof fn law_download_is_the_file(
    clip: ClipView,
    index: i32,
    name: Seq<char>,
    data_id: Option<u32>,
    file: Seq<u8>,
    rounds: nat,
)
    requires
        file.len() <= u64::MAX,
        rounds > file.len(),
    ensures
        ({
            let (next, request) = ask_size(clip, index, name, data_id);
            served(next, StepView::Request(request), file, rounds) == Some((name, file))
        }),
{
    let (next, request) = ask_size(clip, index, name, data_id);
    let size = le64_bytes(file.len() as u64);
    law_le64_round_trip(file.len() as u64);
    let rest = ClipView { transfers: next.transfers.remove(request.stream_id), ..next };
    assert(file.take(0) =~= seq![]);
    assert(contents_step(next, request.stream_id, false, size) == ask_range(
        rest,
        index,
        name,
        file.len() as u64,
        file.take(0),
        data_id,
    ));
    lemma_served_ranges(rest, index, name, data_id, file, 0, (rounds - 1) as nat);
}

/// An answer touches its own download alone: any other stands as it stood, unless a
/// new request takes its number.
pub proof fn law_other_downloads_go_on(clip: ClipView, stream_id: u32, error: bool, data: Seq<u8>, other: u32)
    requires
        clip.valid(),
        other != stream_id,
        other != clip.next_stream_id,
        clip.transfers.contains_key(other),
    ensures
        contents_step(clip, stream_id, error, data).0.valid(),
        contents_step(clip, stream_id, error, data).0.transfers.contains_key(other),
        contents_step(clip, stream_id, error, data).0.transfers[other] == clip.transfers[other],
{
    let after = contents_step(clip, stream_id, error, data).0;
    assert forall|id: u32|
        #![trigger after.transfers[id]]
        after.transfers.contains_key(id) implies id != 0 && (after.transfers[id] matches TransferView::AwaitingData {
        total,
        data,
        ..
    } ==> data.len() < total) by {
        if clip.transfers.contains_key(id) {
            let before = clip.transfers[id];
        }
    }
}

/// Ranges of a file that follow one another join to one range.
pub proof fn law_ranges_join(file: Seq<u8>, start: int, first: int, second: int)
    requires
        0 <= start,
        0 <= first,
        0 <= second,
        start + first <= file.len(),
    ensures
        range_of(file, start, first) + range_of(file, start + first, second) == range_of(file, start, first + second),
{
    assert(range_of(file, start, first) + range_of(file, start + first, second) =~= range_of(
        file,
        start,
        first + second,
    ));
}

/// A text that is copied on one end and pasted on the other is the same text, where it
/// holds no zero character.
pub proof fn law_text_arrives(clip: ClipView, local: LocalView, text: Seq<char>)
    requires
        clip.enable_text,
        local.text == Some(text),
        text.len() > 0,
        forall|i: int| 0 <= i < text.len() ==> text[i] != '\0',
    ensures
        format_reply(clip, local, CF_UNICODETEXT) is Some,
        arrived(Some(CF_UNICODETEXT), format_reply(clip, local, CF_UNICODETEXT)->0) == Some(NoticeView::Text(text)),
{
    let units = encode(text) + seq![0u16];
    let data = text_bytes(text) + seq![0u8, 0u8];
    assert(units.drop_last() =~= encode(text));
    assert(bytes_of(units) == text_bytes(text) + le16_bytes(0));
    assert(data =~= bytes_of(units));
    law_units_of_bytes(units);
    assert(encode(text) + seq![0u16] + Seq::<u16>::empty() =~= units);
    law_terminated_round_trip(text, Seq::empty());
}

/// A download between two ends of the channel: the other end, which holds `local`, answers up
/// to `rounds` requests as it answers any. Gives what is handed to the user.
pub open spec fn fetched(clip: ClipView, step: StepView, host: ClipView, local: LocalView, rounds: nat) -> Option<
    (Seq<char>, Seq<u8>),
>
    decreases rounds,
{
    match step {
        StepView::Download { name, data } => Some((name, data)),
        StepView::Nothing => None,
        StepView::Request(request) => if rounds == 0 {
            None
        } else {
            let answer = contents_reply(host, local, request);
            let (next, then_step) = contents_step(
                clip,
                request.stream_id,
                answer is None,
                match answer {
                    Some(bytes) => bytes,
                    None => seq![],
                },
            );
            fetched(next, then_step, host, local, (rounds - 1) as nat)
        },
    }
}

proof fn lemma_fetched_ranges(
    clip: ClipView,
    host: ClipView,
    local: LocalView,
    index: i32,
    name: Seq<char>,
    data_id: Option<u32>,
    have: nat,
    rounds: nat,
)
    requires
        host.enable_file,
        0 <= index < local.files.len(),
        have <= local.files[index as int].1.len() <= usize::MAX,
        rounds >= local.files[index as int].1.len() - have,
    ensures
        ({
            let file = local.files[index as int].1;
            let (next, step) = ask_range(clip, index, name, file.len() as u64, file.take(have as int), data_id);
            fetched(next, step, host, local, rounds) == Some((name, file))
        }),
    decreases local.files[index as int].1.len() - have,
{
    let file = local.files[index as int].1;
    let total = file.len() as u64;
    let data = file.take(have as int);
    let (next, step) = ask_range(clip, index, name, total, data, data_id);
    let chunk = next_chunk(total, have as int);
    if chunk == 0 {
        assert(data =~= file);
    } else {
        let request = step->Request_0;
        assert(2u32 & 1u32 == 0) by (bit_vector);
        vstd::arithmetic::div_mod::lemma_small_mod(have, (usize::MAX + 1) as nat);
        let answer = range_of(file, have as int, chunk);
        assert(contents_reply(host, local, request) == Some(answer));
        assert(answer =~= file.subrange(have as int, have + chunk));
        assert(data + answer =~= file.take(have + chunk));
        let rest = ClipView { transfers: next.transfers.remove(request.stream_id), ..next };
        assert(contents_step(next, request.stream_id, false, answer) == ask_range(
            rest,
            index,
            name,
            total,
            file.take(have + chunk),
            data_id,
        ));
        lemma_fetched_ranges(rest, host, local, index, name, data_id, (have + chunk) as nat, (rounds - 1) as nat);
    }
}

/// A file that one end offers and the other downloads by its number arrives byte for byte and
/// under the name it was offered by, whichever other files are offered and whatever other
/// downloads are under way: both ends mean the same file by its number, and the same bytes by
/// a position and a size.
pub proof fn law_file_goes_from_end_to_end(
    clip: ClipView,
    host: ClipView,
    local: LocalView,
    index: i32,
    name: Seq<char>,
    data_id: Option<u32>,
    rounds: nat,
)
    requires
        host.enable_file,
        0 <= index < local.files.len(),
        local.files[index as int].1.len() <= usize::MAX,
        rounds > local.files[index as int].1.len(),
    ensures
        ({
            let (next, request) = ask_size(clip, index, name, data_id);
            fetched(next, StepView::Request(request), host, local, rounds) == Some((name, local.files[index as int].1))
        }),
{
    let file = local.files[index as int].1;
    let (next, request) = ask_size(clip, index, name, data_id);
    let size = le64_bytes(file.len() as u64);
    law_le64_round_trip(file.len() as u64);
    assert(1u32 & 1u32 == 1) by (bit_vector);
    assert(contents_reply(host, local, request) == Some(size));
    let rest = ClipView { transfers: next.transfers.remove(request.stream_id), ..next };
    assert(file.take(0) =~= seq![]);
    assert(contents_step(next, request.stream_id, false, size) == ask_range(
        rest,
        index,
        name,
        file.len() as u64,
        file.take(0),
        data_id,
    ));
    lemma_fetched_ranges(rest, host, local, index, name, data_id, 0, (rounds - 1) as nat);
}

/// Each file of a list is asked for by its own number, counted from 0, in the order of the
/// list: first for its size, which takes eight bytes, under the list's own lock.
pub proof fn law_each_file_is_asked_for(clip: ClipView, names: Seq<Seq<char>>, data_id: Option<u32>, i: int)
    requires
        0 <= i < names.len() <= i32::MAX,
    ensures
        ({
            let requests = ask_sizes(clip, names, data_id).1;
            &&& requests.len() == names.len()
            &&& requests[i].index == i
            &&& requests[i].flags == 1
            &&& requests[i].position == 0
            &&& requests[i].requested_size == 8
            &&& requests[i].data_id == data_id
        }),
        ask_sizes(clip, seq![], data_id) == (clip, Seq::<FileContentsRequest>::empty()),
    decreases names.len(),
{
    let front = names.drop_last();
    if i < front.len() {
        law_each_file_is_asked_for(clip, front, data_id, i);
    } else {
        lemma_asked(clip, front, data_id);
    }
}

proof fn lemma_asked(clip: ClipView, names: Seq<Seq<char>>, data_id: Option<u32>)
    ensures
        ask_sizes(clip, names, data_id).1.len() == names.len(),
    decreases names.len(),
{
    if names.len() > 0 {
        lemma_asked(clip, names.drop_last(), data_id);
    }
}

/// A download goes on where it stands: once the size is known, and after each part, the next
/// request is for the same file under the same lock, from the first byte that has not come,
/// for no more than 4 MiB and no more than is left; what came is behind what came before. The
/// file is handed over as soon as nothing is left, and only then.
pub proof fn law_download_goes_on_where_it_stands(clip: ClipView, stream_id: u32, answer: Seq<u8>)
    requires
        clip.transfers.contains_key(stream_id),
        clip.transfers[stream_id] matches TransferView::AwaitingSize { .. } ==> answer.len() == 8,
    ensures
        ({
            let (file_index, name, total, data, data_id) = match clip.transfers[stream_id] {
                TransferView::AwaitingSize { file_index, name, data_id } => (
                    file_index,
                    name,
                    le64_at(answer, 0),
                    seq![],
                    data_id,
                ),
                TransferView::AwaitingData { file_index, name, total, data, data_id } => (
                    file_index,
                    name,
                    total,
                    data + answer,
                    data_id,
                ),
            };
            let (after, step) = contents_step(clip, stream_id, false, answer);
            &&& total <= data.len() ==> step == (StepView::Download { name, data }) && !after.transfers.contains_key(
                stream_id,
            )
            &&& total > data.len() ==> {
                &&& step matches StepView::Request(request)
                &&& request.stream_id == clip.next_stream_id
                &&& request.index == file_index
                &&& request.data_id == data_id
                &&& request.flags == 2
                &&& request.position == data.len()
                &&& 1 <= request.requested_size <= 4 * 1024 * 1024
                &&& data.len() + request.requested_size <= total
                &&& request.requested_size == 4 * 1024 * 1024 || data.len() + request.requested_size == total
                &&& after.transfers.contains_key(request.stream_id)
                &&& after.transfers[request.stream_id] == (TransferView::AwaitingData {
                    file_index,
                    name,
                    total,
                    data,
                    data_id,
                })
                &&& after.next_stream_id != 0
                &&& clip.next_stream_id < u32::MAX ==> after.next_stream_id == clip.next_stream_id + 1
            }
        }),
{
}

/// A download that fails is given up, and an answer that nobody waits for changes nothing.
pub proof fn law_failed_download_is_given_up(clip: ClipView, stream_id: u32, error: bool, answer: Seq<u8>)
    requires
        ({
            ||| error
            ||| !clip.transfers.contains_key(stream_id)
            ||| clip.transfers[stream_id] is AwaitingSize && answer.len() != 8
        }),
    ensures
        ({
            let (after, step) = contents_step(clip, stream_id, error, answer);
            &&& step is Nothing
            &&& !after.transfers.contains_key(stream_id)
            &&& after.transfers == clip.transfers.remove(stream_id)
            &&& after.next_stream_id == clip.next_stream_id
            &&& after.pending_format == clip.pending_format
        }),
{
}

/// Of what the server offers, a text in UTF-16 is asked for before an image, an image with the
/// newer header before one with the older, and files are announced where nothing else is
/// taken; texts and images only where texts are enabled, files only where files are. The
/// files are under the first format of that name.
pub proof fn law_best_format_is_taken(enable_text: bool, enable_file: bool, formats: Seq<FormatView>, i: int)
    requires
        0 <= i < formats.len(),
    ensures
        ({
            let action = copy_action(enable_text, enable_file, formats);
            let files = "FileGroupDescriptorW"@;
            &&& enable_text && formats[i].id == 13 ==> action == RemoteCopyAction::Paste(13)
            &&& enable_text && formats[i].id == 17 ==> action == RemoteCopyAction::Paste(13) || action
                == RemoteCopyAction::Paste(17)
            &&& enable_text && formats[i].id == 8 ==> action is Paste
            &&& enable_file && formats[i].name == Some(files) ==> action is Paste || action is AnnounceFiles
            &&& action matches RemoteCopyAction::Paste(id) ==> enable_text && (id == 13 || id == 17 || id == 8)
                && exists|j: int| 0 <= j < formats.len() && (#[trigger] formats[j]).id == id
            &&& action is AnnounceFiles ==> enable_file && exists|j: int|
                0 <= j < formats.len() && (#[trigger] formats[j]).name == Some(files)
            &&& formats[i].name == Some(files) && (forall|j: int|
                0 <= j < i ==> (#[trigger] formats[j]).name != Some(files)) ==> file_format(formats) == Some(
                formats[i].id,
            )
        }),
{
    lemma_file_format(formats);
    if formats[i].id == 13 {
        assert(has_format(formats, 13));
    }
    if formats[i].id == 17 {
        assert(has_format(formats, 17));
    }
    if formats[i].id == 8 {
        assert(has_format(formats, 8));
    }
}

proof fn lemma_file_format(formats: Seq<FormatView>)
    ensures
        ({
            let files = "FileGroupDescriptorW"@;
            match file_format(formats) {
                Some(id) => exists|k: int|
                    0 <= k < formats.len() && (#[trigger] formats[k]).name == Some(files) && formats[k].id == id && forall|
                        j: int,
                    |
                        0 <= j < k ==> (#[trigger] formats[j]).name != Some(files),
                None => forall|j: int| 0 <= j < formats.len() ==> (#[trigger] formats[j]).name != Some(files),
            }
        }),
    decreases formats.len(),
{
    let files = "FileGroupDescriptorW"@;
    if formats.len() > 0 {
        let rest = formats.skip(1);
        if formats[0].name != Some(files) {
            lemma_file_format(rest);
            assert forall|j: int| 0 < j < formats.len() implies #[trigger] formats[j] == rest[j - 1] by {}
            if file_format(rest) is Some {
                let k = choose|k: int|
                    0 <= k < rest.len() && (#[trigger] rest[k]).name == Some(files) && rest[k].id == file_format(
                        rest,
                    )->0 && forall|j: int| 0 <= j < k ==> (#[trigger] rest[j]).name != Some(files);
                assert(formats[k + 1] == rest[k]);
                assert forall|j: int| 0 <= j < k + 1 implies (#[trigger] formats[j]).name != Some(files) by {
                    if j > 0 {
                        assert(rest[j - 1].name != Some(files));
                    }
                }
            }
        }
    }
}

/// What the page holds is offered in the format in which it can be given, and each is given in
/// that format and no other: a text as UTF-16 with a zero unit behind it, an image as the
/// newer kind of bitmap. Without a text an empty one is given. With texts not enabled nothing
/// is.
pub proof fn law_what_is_offered_is_given(clip: ClipView, local: LocalView, format: u32)
    ensures
        has_format(offered(local), format) <==> (format == 13 && local.text is Some) || (format == 17 && local.image is Some),
        !clip.enable_text ==> format_reply(clip, local, format) is None,
        format != 13 && format != 17 ==> format_reply(clip, local, format) is None,
        clip.enable_text && local.text is None ==> format_reply(clip, local, 13) == Some(seq![0u8, 0u8]),
        clip.enable_text && local.image is Some ==> format_reply(clip, local, 17) == dibv5_of_png(local.image->0),
        local.image is None ==> format_reply(clip, local, 17) is None,
{
    let all = offered(local);
    if local.text is Some {
        assert(all[0].id == 13);
    }
    if local.image is Some {
        assert(all[all.len() - 1].id == 17);
    }
    assert(text_bytes(seq![]) + seq![0u8, 0u8] =~= seq![0u8, 0u8]);
}

/// What came in the format last asked for is read in that format: the newer kind of bitmap and
/// the older one each by its own rules, and of any other format but a text nothing is told. An
/// empty text is no news.
pub proof fn law_arrivals_are_read_in_their_format(data: Seq<u8>, format: u32)
    ensures
        arrived(Some(17), data) == (match png_of_dibv5(data) {
            Some(png) => Some(NoticeView::Image(png)),
            None => None,
        }),
        arrived(Some(8), data) == (match png_of_dib(data) {
            Some(png) => Some(NoticeView::Image(png)),
            None => None,
        }),
        format != 8 && format != 13 && format != 17 ==> arrived(Some(format), data) is None,
        arrived(None, data) is None,
        arrived(Some(13), Seq::empty()) is None,
{
    assert(units_of(Seq::<u8>::empty()) =~= Seq::<u16>::empty());
}

/// The answer to a request on a file: none where files are not enabled or there is no file of
/// that number; its size, where the request asks for that; otherwise the bytes from the
/// position on, as many as asked for and as there are.
pub proof fn law_file_request_is_answered(clip: ClipView, local: LocalView, request: FileContentsRequest, k: int)
    requires
        request.position <= usize::MAX,
    ensures
        ({
            let reply = contents_reply(clip, local, request);
            &&& !clip.enable_file || request.index < 0 || request.index >= local.files.len() ==> reply is None
            &&& clip.enable_file && 0 <= request.index < local.files.len() ==> {
                let file = local.files[request.index as int].1;
                let from = request.position;
                let left = file.len() - from;
                &&& reply is Some
                &&& request.flags & 1 != 0 ==> reply->0 == le64_bytes(file.len() as u64)
                &&& request.flags & 1 == 0 && left >= 0 ==> {
                    &&& reply->0.len() == if request.requested_size < left {
                        request.requested_size as int
                    } else {
                        left
                    }
                    &&& 0 <= k < reply->0.len() ==> reply->0[k] == file[from + k]
                }
            }
        }),
{
    vstd::arithmetic::div_mod::lemma_small_mod(request.position as nat, (usize::MAX + 1) as nat);
}

/// A request for a part of a file can be answered exactly where the part begins in the file or
/// at its end and its own end is a machine number; any other request can always be answered.
pub proof fn law_parts_of_the_file_can_be_asked_for(clip: ClipView, local: LocalView, request: FileContentsRequest)
    requires
        request.position <= usize::MAX,
    ensures
        ({
            let part = clip.enable_file && 0 <= request.index < local.files.len() && request.flags & 1 == 0;
            &&& !part ==> range_fits(clip, local, request)
            &&& part ==> range_fits(clip, local, request) == (request.position <= local.files[request.index as int].1.len()
                && request.position + request.requested_size <= usize::MAX)
        }),
{
    vstd::arithmetic::div_mod::lemma_small_mod(request.position as nat, (usize::MAX + 1) as nat);
}

} // verus!
