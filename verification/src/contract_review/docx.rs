//! The parts of a .docx archive.
use std::io::{Cursor, Read, Write};
use vstd::prelude::*;
use vstd::utf8::*;
use zip::write::SimpleFileOptions;
use zip::{CompressionMethod, ZipArchive, ZipWriter};
use crate::text::same_text;

verus! {

/// An archive that is read.
#[verifier::external_type_specification]
#[verifier::external_body]
#[verifier::reject_recursive_types(R)]
pub struct ExZipArchive<R>(ZipArchive<R>);

/// Bytes in memory with a place in them.
#[verifier::external_type_specification]
#[verifier::external_body]
#[verifier::reject_recursive_types(T)]
pub struct ExCursor<T>(Cursor<T>);

/// An archive that is written: a `zip::ZipWriter` on bytes in memory.
#[verifier::external_body]
pub struct DocxWriter {
    inner: ZipWriter<Cursor<Vec<u8>>>,
}

/// What reading one entry of an archive gave.
pub enum PartRead {
    /// The entry with its contents.
    Entry { name: String, dir: bool, data: Vec<u8> },
    /// The entry was found, but its contents could not be read.
    Broken { name: String, dir: bool, error: String },
    /// The entry could not be opened.
    Unopened { error: String },
}

/// What reading one entry of an archive gave, as data.
pub enum PartModel {
    Entry { name: Seq<char>, dir: bool, data: Seq<u8> },
    Broken { name: Seq<char>, dir: bool, error: Seq<char> },
    Unopened { error: Seq<char> },
}

impl View for PartRead {
    type V = PartModel;

    open spec fn view(&self) -> PartModel {
        match *self {
            PartRead::Entry { name, dir, data } => PartModel::Entry {
                name: name@,
                dir,
                data: data@,
            },
            PartRead::Broken { name, dir, error } => PartModel::Broken {
                name: name@,
                dir,
                error: error@,
            },
            PartRead::Unopened { error } => PartModel::Unopened { error: error@ },
        }
    }
}

/// The entries that the zip crate reads from the bytes of an archive, or its
/// complaint.
pub uninterp spec fn zip_listing(archive: Seq<u8>) -> Result<Seq<PartModel>, Seq<char>>;

/// The entries of an open archive.
pub uninterp spec fn archive_parts(archive: &ZipArchive<Cursor<Vec<u8>>>) -> Seq<PartModel>;

/// The entries that were written so far, with their contents so far.
pub uninterp spec fn written_parts(writer: &DocxWriter) -> Seq<(Seq<char>, Seq<u8>)>;

/// The complaint of the zip crate about an entry that is begun after these
/// entries, if it has one.
pub uninterp spec fn start_complaint(
    written: Seq<(Seq<char>, Seq<u8>)>,
    name: Seq<char>,
) -> Option<Seq<char>>;

/// The complaint of the zip crate about the contents of the last of these
/// entries, which is still empty, if it has one.
pub uninterp spec fn write_complaint(
    written: Seq<(Seq<char>, Seq<u8>)>,
    data: Seq<u8>,
) -> Option<Seq<char>>;

/// The complaint of the zip crate about ending an archive with these entries, if
/// it has one.
pub uninterp spec fn finish_complaint(written: Seq<(Seq<char>, Seq<u8>)>) -> Option<Seq<char>>;

/// The error of a result, if it is one.
pub open spec fn complaint<T>(r: Result<T, String>) -> Option<Seq<char>> {
    match r {
        Ok(_) => None,
        Err(e) => Some(e@),
    }
}

/// The complaint of `String::from_utf8` about bytes that are not UTF-8.
pub uninterp spec fn utf8_complaint(bytes: Seq<u8>) -> Seq<char>;

/// The bytes are an archive with these entries.
pub open spec fn lists(archive: Seq<u8>, entries: Seq<PartModel>) -> bool {
    zip_listing(archive) == Ok::<Seq<PartModel>, Seq<char>>(entries)
}

/// What opening an archive gave, as data.
pub open spec fn opened_parts(r: Result<ZipArchive<Cursor<Vec<u8>>>, String>) -> Result<
    Seq<PartModel>,
    Seq<char>,
> {
    match r {
        Ok(a) => Ok(archive_parts(&a)),
        Err(e) => Err(e@),
    }
}

/// `zip::ZipArchive::new` reads the directory of an archive. Whether it
/// succeeds and what it finds depend on the bytes alone.
#[verifier::external_body]
fn open_archive(archive: Vec<u8>) -> (r: Result<ZipArchive<Cursor<Vec<u8>>>, String>)
    ensures
        opened_parts(r) == zip_listing(archive@),
{
    ZipArchive::new(Cursor::new(archive)).map_err(|e| e.to_string())
}

/// `zip::ZipArchive::len` counts the entries.
#[verifier::external_body]
fn count_parts(archive: &ZipArchive<Cursor<Vec<u8>>>) -> (n: usize)
    ensures
        n == archive_parts(archive).len(),
{
    archive.len()
}

/// The zip crate takes a name that ends in a slash for that of a directory.
pub open spec fn is_dir_name(name: Seq<char>) -> bool {
    name.len() > 0 && (name.last() == '/' || name.last() == '\\')
}

/// Only directories are named like directories.
pub open spec fn named_by_kind(part: PartModel) -> bool {
    match part {
        PartModel::Entry { name, dir, .. } => dir == is_dir_name(name),
        PartModel::Broken { name, dir, .. } => dir == is_dir_name(name),
        PartModel::Unopened { .. } => true,
    }
}

/// `zip::ZipArchive::by_index` opens an entry and `read_to_end` reads it. The
/// archive keeps its entries. `is_dir` goes by the name alone.
#[verifier::external_body]
fn read_part(archive: &mut ZipArchive<Cursor<Vec<u8>>>, index: usize) -> (part: PartRead)
    requires
        index < archive_parts(old(archive)).len(),
    ensures
        part@ == archive_parts(old(archive))[index as int],
        named_by_kind(part@),
        archive_parts(final(archive)) == archive_parts(old(archive)),
{
    let mut entry = match archive.by_index(index) {
        Ok(entry) => entry,
        Err(e) => return PartRead::Unopened { error: e.to_string() },
    };
    let (name, dir) = (entry.name().to_string(), entry.is_dir());
    let mut data = Vec::new();
    match entry.read_to_end(&mut data) {
        Ok(_) => PartRead::Entry { name, dir, data },
        Err(e) => PartRead::Broken { name, dir, error: e.to_string() },
    }
}

/// `zip::ZipWriter::new` starts an empty archive in memory.
#[verifier::external_body]
fn new_writer() -> (writer: DocxWriter)
    ensures
        written_parts(&writer) == Seq::<(Seq<char>, Seq<u8>)>::empty(),
{
    DocxWriter { inner: ZipWriter::new(Cursor::new(Vec::new())) }
}

/// `zip::ZipWriter::start_file` begins an entry, to be deflated, and refuses a
/// name that was used before. What else it refuses depends on what was written
/// and on the name alone. It panics on a name that does not fit the length field
/// of the format.
#[verifier::external_body]
fn start_part(writer: &mut DocxWriter, name: &str) -> (r: Result<(), String>)
    requires
        encode_utf8(name@).len() <= 0xffff,
    ensures
        complaint(r) == start_complaint(written_parts(old(writer)), name@),
        r is Ok ==> written_parts(final(writer)) == written_parts(old(writer)).push(
            (name@, Seq::<u8>::empty()),
        ),
        (exists|i: int|
            0 <= i < written_parts(old(writer)).len() && (#[trigger] written_parts(
                old(writer),
            )[i]).0 == name@) ==> r is Err,
{
    let options = SimpleFileOptions::default().compression_method(CompressionMethod::Deflated);
    writer.inner.start_file(name, options).map_err(|e| e.to_string())
}

/// `Write::write_all` on a `zip::ZipWriter` fills the entry that was begun last.
/// It refuses contents whose length does not fit the 32 bits that the format has
/// for it. What else it refuses depends on what was written and on the contents
/// alone.
#[verifier::external_body]
fn write_part(writer: &mut DocxWriter, data: &[u8]) -> (r: Result<(), String>)
    requires
        written_parts(old(writer)).len() > 0,
        written_parts(old(writer)).last().1.len() == 0,
    ensures
        complaint(r) == write_complaint(written_parts(old(writer)), data@),
        r is Ok ==> written_parts(final(writer)) == written_parts(old(writer)).drop_last().push(
            (written_parts(old(writer)).last().0, data@),
        ),
        data@.len() > 0xffff_ffff ==> r is Err,
{
    writer.inner.write_all(data).map_err(|e| e.to_string())
}

/// The entries of a listing made of whole files.
pub open spec fn as_entries(parts: Seq<(Seq<char>, Seq<u8>)>) -> Seq<PartModel> {
    Seq::new(
        parts.len(),
        |i: int|
            PartModel::Entry {
                name: parts[i].0,
                dir: is_dir_name(parts[i].0),
                data: parts[i].1,
            },
    )
}

/// `zip::ZipWriter::finish` ends the archive and hands out its bytes. Read
/// again, they give the entries that were written, in order. Whether it succeeds
/// depends on these entries alone. Which of the many archives with these entries
/// it is, is left unsaid.
#[verifier::external_body]
fn finish_archive(writer: DocxWriter) -> (r: Result<Vec<u8>, String>)
    ensures
        complaint(r) == finish_complaint(written_parts(&writer)),
        r matches Ok(bytes) ==> lists(bytes@, as_entries(written_parts(&writer))),
{
    writer.inner.finish().map(|c| c.into_inner()).map_err(|e| e.to_string())
}

/// `String::from_utf8` takes bytes for a string if they are UTF-8, and
/// complains if they are not.
#[verifier::external_body]
pub(crate) fn utf8_text(bytes: Vec<u8>) -> (r: Result<String, String>)
    ensures
        match r {
            Ok(s) => valid_utf8(bytes@) && s@ == decode_utf8(bytes@),
            Err(e) => !valid_utf8(bytes@) && e@ == utf8_complaint(bytes@),
        },
{
    String::from_utf8(bytes).map_err(|e| e.to_string())
}

/// What reading one text out of an archive gave.
pub enum TextPart {
    Text(String),
    /// The bytes are no archive.
    NotArchive(String),
    /// There is no such entry, or it cannot be opened.
    Missing(String),
    /// The entry cannot be read, or is no text.
    Broken(String),
}

/// What reading one text out of an archive gave, as data.
pub enum TextPartModel {
    Text(Seq<char>),
    NotArchive(Seq<char>),
    Missing(Seq<char>),
    Broken(Seq<char>),
}

impl View for TextPart {
    type V = TextPartModel;

    open spec fn view(&self) -> TextPartModel {
        match *self {
            TextPart::Text(s) => TextPartModel::Text(s@),
            TextPart::NotArchive(s) => TextPartModel::NotArchive(s@),
            TextPart::Missing(s) => TextPartModel::Missing(s@),
            TextPart::Broken(s) => TextPartModel::Broken(s@),
        }
    }
}

/// What the zip crate gives for the text of one entry of an archive.
pub uninterp spec fn zip_text_part(archive: Seq<u8>, name: Seq<char>) -> TextPartModel;

/// An entry has a name and is whole, and its contents are a text.
pub open spec fn holds_text(entry: PartModel, name: Seq<char>, text: Seq<char>) -> bool {
    match entry {
        PartModel::Entry { name: n, data, .. } => n == name && valid_utf8(data) && decode_utf8(data)
            == text,
        _ => false,
    }
}

/// Entry number `i` of an archive has a name and is whole, and its contents are
/// a text.
pub open spec fn lists_text(archive: Seq<u8>, name: Seq<char>, text: Seq<char>, i: int) -> bool {
    match zip_listing(archive) {
        Ok(entries) => 0 <= i < entries.len() && holds_text(entries[i], name, text),
        Err(_) => false,
    }
}

/// `zip::ZipArchive::by_name` opens the entry of a name and `read_to_string`
/// reads it. What comes of it depends on the bytes and the name alone. An
/// archive lists each name once, so if an entry of that name is listed with its
/// contents and they are UTF-8, they are what is read.
#[verifier::external_body]
pub(crate) fn read_text_part(archive: &[u8], name: &str) -> (r: TextPart)
    ensures
        r@ == zip_text_part(archive@, name@),
        forall|text: Seq<char>, i: int| #[trigger]
            lists_text(archive@, name@, text, i) ==> r@ == TextPartModel::Text(text),
{
    let mut opened = match ZipArchive::new(Cursor::new(archive)) {
        Ok(opened) => opened,
        Err(e) => return TextPart::NotArchive(e.to_string()),
    };
    let mut entry = match opened.by_name(name) {
        Ok(entry) => entry,
        Err(e) => return TextPart::Missing(e.to_string()),
    };
    let mut text = String::new();
    match entry.read_to_string(&mut text) {
        Ok(_) => TextPart::Text(text),
        Err(e) => TextPart::Broken(e.to_string()),
    }
}

/// All parts of an archive, in order: the path of each and its contents.
pub type DocxParts = Vec<(String, Vec<u8>)>;

pub open spec fn parts_model(parts: Seq<(String, Vec<u8>)>) -> Seq<(Seq<char>, Seq<u8>)> {
    Seq::new(parts.len(), |i: int| (parts[i].0@, parts[i].1@))
}

pub open spec fn reads_model(v: Seq<PartRead>) -> Seq<PartModel> {
    Seq::new(v.len(), |i: int| v[i]@)
}

/// The files of an archive, and the text of the document among them.
pub struct Collected {
    pub parts: Seq<(Seq<char>, Seq<u8>)>,
    pub document: Option<Seq<char>>,
}

/// The files among some entries in order, directories left out, and the text
/// of the last `word/document.xml`; or what is said of the first entry that
/// cannot be read.
pub open spec fn collected(entries: Seq<PartModel>) -> Result<Collected, Seq<char>>
    decreases entries.len(),
{
    if entries.len() == 0 {
        Ok(Collected { parts: Seq::empty(), document: None })
    } else {
        match collected(entries.drop_last()) {
            Err(e) => Err(e),
            Ok(c) => match entries.last() {
                PartModel::Unopened { error } => Err("读 zip 条目失败: "@ + error),
                PartModel::Broken { name, dir, error } => if dir {
                    Ok(c)
                } else {
                    Err("读 zip 条目 "@ + name + " 失败: "@ + error)
                },
                PartModel::Entry { name, dir, data } => if dir {
                    Ok(c)
                } else if name == "word/document.xml"@ {
                    if valid_utf8(data) {
                        Ok(
                            Collected {
                                parts: c.parts.push((name, data)),
                                document: Some(decode_utf8(data)),
                            },
                        )
                    } else {
                        Err("document.xml 非 UTF-8: "@ + utf8_complaint(data))
                    }
                } else {
                    Ok(Collected { parts: c.parts.push((name, data)), ..c })
                },
            },
        }
    }
}

/// The same with the demand that there is a document.
pub open spec fn collected_docx(entries: Seq<PartModel>) -> Result<
    (Seq<(Seq<char>, Seq<u8>)>, Seq<char>),
    Seq<char>,
> {
    match collected(entries) {
        Err(e) => Err(e),
        Ok(c) => match c.document {
            None => Err(".docx 内找不到 word/document.xml"@),
            Some(d) => Ok((c.parts, d)),
        },
    }
}

/// An error stays one however many entries follow.
proof fn lemma_collected_error(entries: Seq<PartModel>, n: int)
    requires
        0 <= n <= entries.len(),
        collected(entries.subrange(0, n)) is Err,
    ensures
        collected(entries) == collected(entries.subrange(0, n)),
    decreases entries.len(),
{
    if n == entries.len() {
        assert(entries.subrange(0, n) =~= entries);
    } else {
        assert(entries.drop_last().subrange(0, n) =~= entries.subrange(0, n));
        lemma_collected_error(entries.drop_last(), n);
    }
}

/// The files of an archive and the text of its document, from the entries that
/// were read.
pub fn collect_parts(entries: Vec<PartRead>) -> (r: Result<(DocxParts, String), String>)
    ensures
        match r {
            Ok((parts, document)) => collected_docx(reads_model(entries@)) == Ok::<
                (Seq<(Seq<char>, Seq<u8>)>, Seq<char>),
                Seq<char>,
            >((parts_model(parts@), document@)),
            Err(e) => collected_docx(reads_model(entries@)) == Err::<
                (Seq<(Seq<char>, Seq<u8>)>, Seq<char>),
                Seq<char>,
            >(e@),
        },
{
    let ghost m = reads_model(entries@);
    let mut parts: DocxParts = Vec::new();
    let mut document: Option<String> = None;
    let mut i: usize = 0;
    assert(m.subrange(0, 0) =~= Seq::<PartModel>::empty());
    assert(parts_model(parts@) =~= Seq::<(Seq<char>, Seq<u8>)>::empty());
    while i < entries.len()
        invariant
            i <= entries@.len(),
            m == reads_model(entries@),
            collected(m.subrange(0, i as int)) == Ok::<Collected, Seq<char>>(
                Collected {
                    parts: parts_model(parts@),
                    document: match document {
                        Some(d) => Some(d@),
                        None => None,
                    },
                },
            ),
        decreases entries@.len() - i,
    {
        let ghost next = m.subrange(0, i + 1);
        assert(next.drop_last() =~= m.subrange(0, i as int));
        assert(next.last() == entries@[i as int]@);
        let ghost before = parts_model(parts@);
        match &entries[i] {
            PartRead::Unopened { error } => {
                let mut e = String::from_str("读 zip 条目失败: ");
                e.append(error.as_str());
                proof {
                    lemma_collected_error(m, i + 1);
                }
                return Err(e);
            },
            PartRead::Broken { name, dir, error } => {
                if !*dir {
                    let mut e = String::from_str("读 zip 条目 ");
                    e.append(name.as_str());
                    e.append(" 失败: ");
                    e.append(error.as_str());
                    proof {
                        lemma_collected_error(m, i + 1);
                    }
                    return Err(e);
                }
            },
            PartRead::Entry { name, dir, data } => {
                if !*dir {
                    if same_text(name.as_str(), "word/document.xml") {
                        match utf8_text(data.clone()) {
                            Ok(text) => {
                                document = Some(text);
                            },
                            Err(complaint) => {
                                let mut e = String::from_str("document.xml 非 UTF-8: ");
                                e.append(complaint.as_str());
                                proof {
                                    lemma_collected_error(m, i + 1);
                                }
                                return Err(e);
                            },
                        }
                    }
                    parts.push((name.clone(), data.clone()));
                    assert(parts_model(parts@) =~= before.push((name@, data@)));
                }
            },
        }
        i = i + 1;
    }
    assert(m.subrange(0, i as int) =~= m);
    match document {
        Some(d) => Ok((parts, d)),
        None => Err(String::from_str(".docx 内找不到 word/document.xml")),
    }
}

/// The document of an archive is the text of one of its entries.
pub(crate) proof fn lemma_collected_document(entries: Seq<PartModel>, document: Seq<char>)
    requires
        collected(entries) is Ok,
        collected(entries)->Ok_0.document == Some(document),
    ensures
        exists|i: int|
            0 <= i < entries.len() && holds_text(
                #[trigger] entries[i],
                "word/document.xml"@,
                document,
            ),
    decreases entries.len(),
{
    let before = entries.drop_last();
    let n = entries.len() - 1;
    assert(entries[n] == entries.last());
    if !holds_text(entries[n], "word/document.xml"@, document) {
        lemma_collected_document(before, document);
        let i = choose|i: int|
            0 <= i < before.len() && holds_text(
                #[trigger] before[i],
                "word/document.xml"@,
                document,
            );
        assert(entries[i] == before[i]);
    }
}

/// No part is named like a directory.
pub open spec fn all_files(parts: Seq<(Seq<char>, Seq<u8>)>) -> bool {
    forall|i: int| 0 <= i < parts.len() ==> !is_dir_name((#[trigger] parts[i]).0)
}

proof fn lemma_collected_files(entries: Seq<PartModel>)
    requires
        forall|i: int| 0 <= i < entries.len() ==> named_by_kind(#[trigger] entries[i]),
    ensures
        collected(entries) is Ok ==> all_files(collected(entries)->Ok_0.parts),
    decreases entries.len(),
{
    if entries.len() > 0 {
        let before = entries.drop_last();
        assert forall|i: int| 0 <= i < before.len() implies named_by_kind(
            #[trigger] before[i],
        ) by {
            assert(before[i] == entries[i]);
        }
        lemma_collected_files(before);
        assert(named_by_kind(entries[entries.len() - 1]));
    }
}

/// The text of the last document among some parts.
pub open spec fn last_document(parts: Seq<(Seq<char>, Seq<u8>)>) -> Option<Seq<char>>
    decreases parts.len(),
{
    if parts.len() == 0 {
        None
    } else if parts.last().0 == "word/document.xml"@ {
        Some(decode_utf8(parts.last().1))
    } else {
        last_document(parts.drop_last())
    }
}

proof fn lemma_collected_again(parts: Seq<(Seq<char>, Seq<u8>)>)
    requires
        all_files(parts),
        forall|i: int|
            0 <= i < parts.len() && (#[trigger] parts[i]).0 == "word/document.xml"@ ==> valid_utf8(
                parts[i].1,
            ),
    ensures
        collected(as_entries(parts)) == Ok::<Collected, Seq<char>>(
            Collected { parts, document: last_document(parts) },
        ),
    decreases parts.len(),
{
    if parts.len() > 0 {
        let before = parts.drop_last();
        assert forall|i: int| 0 <= i < before.len() implies !is_dir_name(
            (#[trigger] before[i]).0,
        ) && (before[i].0 == "word/document.xml"@ ==> valid_utf8(before[i].1)) by {
            assert(before[i] == parts[i]);
        }
        lemma_collected_again(before);
        assert(as_entries(parts).drop_last() =~= as_entries(before));
        assert(parts[parts.len() - 1] == parts.last());
        assert(as_entries(parts).last() == as_entries(parts)[parts.len() - 1]);
        assert(before.push(parts.last()) =~= parts);
    } else {
        assert(as_entries(parts) =~= Seq::<PartModel>::empty());
        assert(parts =~= Seq::empty());
    }
}

proof fn lemma_only_document(parts: Seq<(Seq<char>, Seq<u8>)>, k: int)
    requires
        !name_repeats(parts),
        0 <= k < parts.len(),
        parts[k].0 == "word/document.xml"@,
    ensures
        last_document(parts) == Some(decode_utf8(parts[k].1)),
    decreases parts.len(),
{
    let n = parts.len() - 1;
    assert(parts[n] == parts.last());
    if k < n {
        let before = parts.drop_last();
        assert(parts[k].0 != parts[n].0);
        assert(before[k] == parts[k]);
        assert forall|i: int, j: int|
            0 <= i < j < before.len() implies (#[trigger] before[i]).0 != (
        #[trigger] before[j]).0 by {
            assert(before[i] == parts[i] && before[j] == parts[j]);
        }
        lemma_only_document(before, k);
    }
}

/// An archive made of files with different names, one of them a document, gives
/// back those files and that document.
pub proof fn whole_archives_read_again(parts: Seq<(Seq<char>, Seq<u8>)>, k: int)
    requires
        all_files(parts),
        !name_repeats(parts),
        0 <= k < parts.len(),
        parts[k].0 == "word/document.xml"@,
        valid_utf8(parts[k].1),
    ensures
        collected_docx(as_entries(parts)) == Ok::<
            (Seq<(Seq<char>, Seq<u8>)>, Seq<char>),
            Seq<char>,
        >((parts, decode_utf8(parts[k].1))),
{
    assert forall|i: int|
        0 <= i < parts.len() && (#[trigger] parts[i]).0 == "word/document.xml"@ implies valid_utf8(
        parts[i].1,
    ) by {
        if i < k {
            assert(parts[i].0 != parts[k].0);
        } else if k < i {
            assert(parts[k].0 != parts[i].0);
        }
    }
    lemma_collected_again(parts);
    lemma_only_document(parts, k);
}

/// What reading a .docx from its bytes comes to.
pub open spec fn docx_contents(docx: Seq<u8>) -> Result<
    (Seq<(Seq<char>, Seq<u8>)>, Seq<char>),
    Seq<char>,
> {
    match zip_listing(docx) {
        Err(e) => Err("读 .docx zip 失败: "@ + e),
        Ok(entries) => collected_docx(entries),
    }
}

/// All parts of a .docx in order, and the text of its document.
pub fn read_docx_parts(docx: Vec<u8>) -> (r: Result<(DocxParts, String), String>)
    ensures
        match r {
            Ok((parts, document)) => docx_contents(docx@) == Ok::<
                (Seq<(Seq<char>, Seq<u8>)>, Seq<char>),
                Seq<char>,
            >((parts_model(parts@), document@)),
            Err(e) => docx_contents(docx@) == Err::<
                (Seq<(Seq<char>, Seq<u8>)>, Seq<char>),
                Seq<char>,
            >(e@),
        },
        r matches Ok((parts, _)) ==> all_files(parts_model(parts@)),
{
    let mut archive = match open_archive(docx) {
        Ok(a) => a,
        Err(complaint) => {
            let mut e = String::from_str("读 .docx zip 失败: ");
            e.append(complaint.as_str());
            return Err(e);
        },
    };
    let n: usize = count_parts(&archive);
    let ghost all = archive_parts(&archive);
    let mut entries: Vec<PartRead> = Vec::new();
    let mut i: usize = 0;
    while i < n
        invariant
            i <= n,
            n == all.len(),
            archive_parts(&archive) == all,
            entries@.len() == i,
            forall|k: int| 0 <= k < i ==> (#[trigger] entries@[k])@ == all[k],
            forall|k: int| 0 <= k < i ==> named_by_kind(#[trigger] all[k]),
        decreases n - i,
    {
        let part = read_part(&mut archive, i);
        assert(named_by_kind(all[i as int]));
        entries.push(part);
        i = i + 1;
    }
    assert(reads_model(entries@) =~= all);
    proof {
        lemma_collected_files(all);
    }
    collect_parts(entries)
}

/// Some name does not fit the length field of the format.
pub open spec fn name_too_long(parts: Seq<(Seq<char>, Seq<u8>)>) -> bool {
    exists|i: int| 0 <= i < parts.len() && encode_utf8((#[trigger] parts[i]).0).len() > 0xffff
}

/// Some name occurs twice.
pub open spec fn name_repeats(parts: Seq<(Seq<char>, Seq<u8>)>) -> bool {
    exists|i: int, j: int|
        0 <= i < j < parts.len() && (#[trigger] parts[i]).0 == (#[trigger] parts[j]).0
}

/// Some part is longer than the format can say.
pub open spec fn part_too_large(parts: Seq<(Seq<char>, Seq<u8>)>) -> bool {
    exists|i: int| 0 <= i < parts.len() && (#[trigger] parts[i]).1.len() > 0xffff_ffff
}

/// The error for a part: what failed, the name of the part, and the complaint.
pub open spec fn part_failure(lead: Seq<char>, name: Seq<char>, error: Seq<char>) -> Seq<char> {
    lead + name + " 失败: "@ + error
}

/// The error for part number `i`, written after those before it, if there is one.
pub open spec fn part_complaint(parts: Seq<(Seq<char>, Seq<u8>)>, i: int) -> Option<Seq<char>> {
    let before = parts.subrange(0, i);
    let (name, data) = parts[i];
    if encode_utf8(name).len() > 0xffff {
        Some(part_failure("写 zip 条目 "@, name, "name too long"@))
    } else {
        match start_complaint(before, name) {
            Some(e) => Some(part_failure("写 zip 条目 "@, name, e)),
            None => match write_complaint(before.push((name, Seq::<u8>::empty())), data) {
                Some(e) => Some(part_failure("写 zip 内容 "@, name, e)),
                None => None,
            },
        }
    }
}

/// The first error in writing the parts from number `i` on and ending the
/// archive, if there is one.
pub open spec fn archive_complaint(parts: Seq<(Seq<char>, Seq<u8>)>, i: int) -> Option<Seq<char>>
    decreases parts.len() - i,
{
    if i >= parts.len() {
        match finish_complaint(parts) {
            Some(e) => Some("收尾 zip 失败: "@ + e),
            None => None,
        }
    } else {
        match part_complaint(parts, i) {
            Some(e) => Some(e),
            None => archive_complaint(parts, i + 1),
        }
    }
}

/// Writes all parts into one archive. Read again, it gives back those parts.
/// It succeeds if neither a part nor the end of the archive gives rise to a
/// complaint; otherwise the first complaint is the error. A name that is too long
/// or that occurs twice is refused, and so is a part that is too large.
pub fn write_docx_parts(parts: &DocxParts) -> (r: Result<Vec<u8>, String>)
    ensures
        complaint(r) == archive_complaint(parts_model(parts@), 0),
        r matches Ok(bytes) ==> lists(bytes@, as_entries(parts_model(parts@))),
        name_too_long(parts_model(parts@)) || name_repeats(parts_model(parts@)) ==> r is Err,
        part_too_large(parts_model(parts@)) ==> r is Err,
{
    let mut writer = new_writer();
    let ghost m = parts_model(parts@);
    let mut i: usize = 0;
    assert(m.subrange(0, 0) =~= written_parts(&writer));
    while i < parts.len()
        invariant
            i <= parts@.len(),
            m == parts_model(parts@),
            written_parts(&writer) == m.subrange(0, i as int),
            archive_complaint(m, 0) == archive_complaint(m, i as int),
            forall|k: int| 0 <= k < i ==> encode_utf8((#[trigger] m[k]).0).len() <= 0xffff,
            forall|k: int| 0 <= k < i ==> (#[trigger] m[k]).1.len() <= 0xffff_ffff,
            forall|j: int, k: int| 0 <= j < k < i ==> (#[trigger] m[j]).0 != (#[trigger] m[k]).0,
        decreases parts@.len() - i,
    {
        let name = parts[i].0.as_str();
        let data = parts[i].1.as_slice();
        assert(m[i as int] == (name@, data@));
        if name.as_bytes().len() > 0xffff {
            return Err(part_error("写 zip 条目 ", name, "name too long"));
        }
        let ghost before = written_parts(&writer);
        match start_part(&mut writer, name) {
            Ok(_) => {},
            Err(e) => {
                return Err(part_error("写 zip 条目 ", name, e.as_str()));
            },
        }
        assert forall|j: int| 0 <= j < i implies (#[trigger] m[j]).0 != m[i as int].0 by {
            assert(before[j] == m[j]);
        }
        match write_part(&mut writer, data) {
            Ok(_) => {},
            Err(e) => {
                return Err(part_error("写 zip 内容 ", name, e.as_str()));
            },
        }
        assert(written_parts(&writer) =~= m.subrange(0, i + 1));
        i = i + 1;
    }
    assert(m.subrange(0, i as int) =~= m);
    finished_archive(finish_archive(writer))
}

/// What ending an archive comes to: its bytes, or the error that names the
/// complaint.
pub fn finished_archive(finished: Result<Vec<u8>, String>) -> (r: Result<Vec<u8>, String>)
    ensures
        match finished {
            Ok(bytes) => r == Ok::<Vec<u8>, String>(bytes),
            Err(e) => complaint(r) == Some("收尾 zip 失败: "@ + e@),
        },
{
    match finished {
        Ok(bytes) => Ok(bytes),
        Err(e) => {
            let mut m = String::from_str("收尾 zip 失败: ");
            m.append(e.as_str());
            Err(m)
        },
    }
}

/// The error for a part that could not be written.
pub fn part_error(lead: &str, name: &str, error: &str) -> (r: String)
    ensures
        r@ == part_failure(lead@, name@, error@),
{
    let mut e = String::from_str(lead);
    e.append(name);
    e.append(" 失败: ");
    e.append(error);
    e
}

/// A file of an archive that was read.
pub open spec fn is_file(entry: PartModel, name: Seq<char>, data: Seq<u8>) -> bool {
    entry == (PartModel::Entry { name, dir: false, data })
}

/// Every file of an archive is among the parts, with its contents, and nothing
/// else is. Its document is the text of the last file of that name.
pub proof fn no_file_is_lost(entries: Seq<PartModel>, name: Seq<char>, data: Seq<u8>)
    requires
        collected(entries) is Ok,
    ensures
        collected(entries)->Ok_0.parts.contains((name, data)) <==> exists|i: int|
            0 <= i < entries.len() && is_file(#[trigger] entries[i], name, data),
        entries.len() > 0 && is_file(entries.last(), "word/document.xml"@, data)
            ==> collected(entries)->Ok_0.document == Some(decode_utf8(data)),
        forall|i: int| 0 <= i < entries.len() ==> !((#[trigger] entries[i]) is Unopened),
    decreases entries.len(),
{
    if entries.len() > 0 {
        let w = entries.drop_last();
        no_file_is_lost(w, name, data);
        let o = collected(w)->Ok_0.parts;
        let p = collected(entries)->Ok_0.parts;
        let last = entries[entries.len() - 1];
        if p.contains((name, data)) {
            let k = choose|k: int| 0 <= k < p.len() && p[k] == (name, data);
            if k < o.len() {
                assert(o[k] == (name, data));
                let i = choose|i: int| 0 <= i < w.len() && is_file(#[trigger] w[i], name, data);
                assert(entries[i] == w[i]);
            } else {
                assert(is_file(last, name, data));
            }
        }
        if exists|i: int| 0 <= i < entries.len() && is_file(#[trigger] entries[i], name, data) {
            let i = choose|i: int|
                0 <= i < entries.len() && is_file(#[trigger] entries[i], name, data);
            if i < w.len() {
                assert(is_file(w[i], name, data));
                let k = choose|k: int| 0 <= k < o.len() && o[k] == (name, data);
                assert(p[k] == (name, data));
            } else {
                assert(p[p.len() - 1] == (name, data));
            }
        }
        assert forall|i: int| 0 <= i < entries.len() implies !((#[trigger] entries[i])
            is Unopened) by {
            if i < w.len() {
                assert(w[i] == entries[i]);
            }
        }
    }
}

/// The files of an archive stand among the parts in their order.
pub proof fn files_keep_their_order(entries: Seq<PartModel>, more: PartModel)
    requires
        collected(entries) is Ok,
        collected(entries.push(more)) is Ok,
    ensures
        collected(entries)->Ok_0.parts.is_prefix_of(collected(entries.push(more))->Ok_0.parts),
        more matches PartModel::Entry { name, dir, data } ==> (!dir
            ==> collected(entries.push(more))->Ok_0.parts == collected(entries)->Ok_0.parts.push(
            (name, data),
        )) && (dir ==> collected(entries.push(more)) == collected(entries)),
{
    assert(entries.push(more).drop_last() =~= entries);
    let o = collected(entries)->Ok_0.parts;
    let p = collected(entries.push(more))->Ok_0.parts;
    assert(p.subrange(0, o.len() as int) =~= o);
}

} // verus!
