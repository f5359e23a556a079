//! Which files are indexed, and how their text is extracted.
use vstd::prelude::*;

use crate::text::{chars_of, lowercase, str_equal, to_lowercase, trim, trim_chars};

verus! {

broadcast use vstd::string::group_string_axioms;

/// The extensions of text files that are read as they are.
pub open spec fn text_extensions() -> Seq<Seq<char>> {
    seq![
        "txt"@, "md"@, "rst"@, "csv"@, "json"@, "yaml"@, "yml"@, "toml"@, "xml"@, "html"@, "htm"@,
        "js"@, "jsx"@, "ts"@, "tsx"@, "py"@, "java"@, "rs"@, "go"@, "c"@, "cpp"@, "h"@, "hpp"@,
        "cs"@, "php"@, "rb"@, "swift"@, "kt"@, "kts"@, "scala"@, "sql"@, "sh"@, "bash"@, "zsh"@,
        "ps1"@, "env"@, "ini"@, "cfg"@, "conf"@, "log"@,
    ]
}

/// An extension (already lowercased) of a file that is indexed: PDF, Word, or a text format.
pub open spec fn supported_extension(ext: Seq<char>) -> bool {
    ext == "pdf"@ || ext == "docx"@ || ext == "doc"@ || text_extensions().contains(ext)
}

/// Whether files with the (lowercase) extension `ext` are indexed.
pub fn is_supported_extension(ext: &str) -> (r: bool)
    ensures
        r == supported_extension(ext@),
{
    if str_equal(ext, "pdf") || str_equal(ext, "docx") || str_equal(ext, "doc") {
        return true;
    }
    let exts = [
        "txt", "md", "rst", "csv", "json", "yaml", "yml", "toml", "xml", "html", "htm",
        "js", "jsx", "ts", "tsx", "py", "java", "rs", "go", "c", "cpp", "h", "hpp",
        "cs", "php", "rb", "swift", "kt", "kts", "scala", "sql", "sh", "bash", "zsh",
        "ps1", "env", "ini", "cfg", "conf", "log",
    ];
    let ghost te = text_extensions();
    assert(exts@.len() == te.len());
    assert(forall|i: int| 0 <= i < te.len() ==> (#[trigger] exts@[i])@ == te[i]);
    let mut i: usize = 0;
    while i < exts.len()
        invariant
            i <= exts@.len(),
            te == text_extensions(),
            exts@.len() == te.len(),
            forall|j: int| 0 <= j < te.len() ==> (#[trigger] exts@[j])@ == te[j],
            forall|j: int| 0 <= j < i ==> te[j] != ext@,
        decreases exts.len() - i,
    {
        if str_equal(ext, exts[i]) {
            proof {
                assert(te[i as int] == ext@);
            }
            return true;
        }
        i = i + 1;
    }
    proof {
        if te.contains(ext@) {
            let j = choose|j: int| 0 <= j < te.len() && te[j] == ext@;
            assert(te[j] != ext@);
        }
    }
    false
}

/// Whether a file with the extension `ext` is indexed; the extension is lowercased first.
pub fn has_supported_extension(ext: &str) -> (r: bool)
    ensures
        r == supported_extension(lowercase(ext@)),
{
    let lower = to_lowercase(ext);
    is_supported_extension(lower.as_str())
}

/// How the text of a file is extracted.
#[derive(Debug, Clone, Copy, PartialEq, Eq, Structural)]
pub enum Extractor {
    /// PDF text, with OCR when the PDF holds no text.
    Pdf,
    /// The text of a Word document's XML.
    Docx,
    /// An older Word document, through an outside converter.
    Doc,
    /// The bytes as UTF-8 text.
    PlainText,
}

/// The extractor for a file's extension, as lowercased.
pub open spec fn extractor_for(ext: Seq<char>) -> Extractor {
    let e = lowercase(ext);
    if e == "pdf"@ {
        Extractor::Pdf
    } else if e == "docx"@ {
        Extractor::Docx
    } else if e == "doc"@ {
        Extractor::Doc
    } else {
        Extractor::PlainText
    }
}

/// The extractor for a file with the extension `ext` (empty when the file has none).
pub fn choose_extractor(ext: &str) -> (r: Extractor)
    ensures
        r == extractor_for(ext@),
{
    let lower = to_lowercase(ext);
    if str_equal(lower.as_str(), "pdf") {
        Extractor::Pdf
    } else if str_equal(lower.as_str(), "docx") {
        Extractor::Docx
    } else if str_equal(lower.as_str(), "doc") {
        Extractor::Doc
    } else {
        Extractor::PlainText
    }
}

/// The text that `String::from_utf8_lossy` decodes from `bytes`.
pub uninterp spec fn utf8_lossy_text(bytes: Seq<u8>) -> Seq<char>;

/// `String::from_utf8`: the text that `bytes` encode when they are valid UTF-8, else the bytes
/// handed back (`FromUtf8Error::into_bytes`). Claimed: success exactly on valid UTF-8 (vstd's
/// `valid_utf8`), with the decoded characters (vstd's `decode_utf8`); on failure the bytes
/// come back unchanged.
#[verifier::external_body]
fn utf8_from_bytes(bytes: Vec<u8>) -> (r: Result<String, Vec<u8>>)
    ensures
        match r {
            Ok(s) => vstd::utf8::valid_utf8(bytes@) && s@ == vstd::utf8::decode_utf8(bytes@),
            Err(b) => !vstd::utf8::valid_utf8(bytes@) && b@ == bytes@,
        },
{
    match String::from_utf8(bytes) {
        Ok(s) => Ok(s),
        Err(e) => Err(e.into_bytes()),
    }
}

/// Decodes `bytes` as UTF-8, putting U+FFFD in place of invalid sequences
/// (`String::from_utf8_lossy`). Claimed: the text is the one named `utf8_lossy_text`.
#[verifier::external_body]
fn decode_utf8_lossy(bytes: &[u8]) -> (r: String)
    ensures
        r@ == utf8_lossy_text(bytes@),
{
    String::from_utf8_lossy(bytes).into_owned()
}

/// Unicode's control characters (general category Cc), which `char::is_control` tests.
pub open spec fn is_control(c: char) -> bool {
    c <= '\u{1f}' || ('\u{7f}' <= c && c <= '\u{9f}')
}

/// A character that counts as printable in a text: not a control character, or a line break
/// or a tab.
pub open spec fn printable(c: char) -> bool {
    !is_control(c) || c == '\n' || c == '\r' || c == '\t'
}

/// The number of printable characters among the first `n` of `s`.
pub open spec fn printable_count(s: Seq<char>, n: int) -> nat
    decreases n,
{
    if n <= 0 {
        0
    } else {
        printable_count(s, n - 1) + if printable(s[n - 1]) {
            1nat
        } else {
            0nat
        }
    }
}

/// The text of a plain file, as decoded from its bytes.
#[derive(Debug, Clone)]
pub enum PlainText {
    /// The bytes are UTF-8 (or there are none); this is their text.
    Text(String),
    /// The bytes are not UTF-8: their text with replacement characters, how many of its
    /// characters are printable, and how many there are. The caller keeps the text only when
    /// enough of it is printable.
    Lossy { text: String, printable: usize, total: usize },
}

/// Decodes the bytes of a plain text file.
pub fn plain_text_of(bytes: Vec<u8>) -> (r: PlainText)
    ensures
        bytes@.len() == 0 ==> (r matches PlainText::Text(t) && t@.len() == 0),
        bytes@.len() > 0 && vstd::utf8::valid_utf8(bytes@) ==> (r matches PlainText::Text(t)
            && t@ == vstd::utf8::decode_utf8(bytes@)),
        bytes@.len() > 0 && !vstd::utf8::valid_utf8(bytes@) ==> (r matches PlainText::Lossy {
            text,
            printable,
            total,
        } && text@ == utf8_lossy_text(bytes@) && total == text@.len() && printable
            == printable_count(text@, text@.len() as int)),
{
    if bytes.len() == 0 {
        return PlainText::Text(String::new());
    }
    match utf8_from_bytes(bytes) {
        Ok(s) => PlainText::Text(s),
        Err(b) => {
            let text = decode_utf8_lossy(b.as_slice());
            let cs = chars_of(text.as_str());
            let mut count: usize = 0;
            let mut i: usize = 0;
            while i < cs.len()
                invariant
                    i <= cs@.len(),
                    count == printable_count(cs@, i as int),
                    count <= i,
                decreases cs.len() - i,
            {
                let c = cs[i];
                let is_cc = c <= '\u{1f}' || ('\u{7f}' <= c && c <= '\u{9f}');
                if !is_cc || c == '\n' || c == '\r' || c == '\t' {
                    count = count + 1;
                }
                i = i + 1;
            }
            PlainText::Lossy { text, printable: count, total: cs.len() }
        },
    }
}

/// Whether the text read from a PDF is blank, so that the PDF is read by OCR instead.
pub fn pdf_text_needs_ocr(text: &str) -> (r: bool)
    ensures
        r == (trim(text@).len() == 0),
{
    let c = chars_of(text);
    trim_chars(c.as_slice()).len() == 0
}

/// The text of a Word document made of its text runs: each run followed by a space.
pub open spec fn runs_text(runs: Seq<Seq<char>>) -> Seq<char>
    decreases runs.len(),
{
    if runs.len() == 0 {
        seq![]
    } else {
        runs_text(runs.drop_last()) + runs.last() + seq![' ']
    }
}

/// The text of a Word document from its text runs, in order (see `runs_text`).
pub fn docx_text(runs: &[String]) -> (r: String)
    ensures
        r@ == runs_text(runs@.map_values(|s: String| s@)),
{
    let ghost rv = runs@.map_values(|s: String| s@);
    let mut out = String::new();
    let mut i: usize = 0;
    while i < runs.len()
        invariant
            i <= runs@.len(),
            rv == runs@.map_values(|s: String| s@),
            out@ == runs_text(rv.take(i as int)),
        decreases runs.len() - i,
    {
        out.append(runs[i].as_str());
        out.append(" ");
        proof {
            reveal_strlit(" ");
            assert(rv.take(i + 1).drop_last() =~= rv.take(i as int));
            assert(rv.take(i + 1).last() == runs@[i as int]@);
        }
        i = i + 1;
    }
    proof {
        assert(rv.take(runs@.len() as int) =~= rv);
    }
    out
}

/// What reading an XML text with `quick_xml` (text trimmed) gives: for each event up to the end
/// of input, the unescaped text of a text event or `None` for any other event; or the message
/// of the first error, in reading or in unescaping.
pub uninterp spec fn xml_pieces(xml: Seq<char>) -> Result<Seq<Option<Seq<char>>>, Seq<char>>;

/// The characters of each piece.
pub open spec fn pieces_view(v: Seq<Option<String>>) -> Seq<Option<Seq<char>>> {
    v.map_values(|o: Option<String>| match o {
        Some(s) => Some(s@),
        None => None,
    })
}

/// `quick_xml::Reader::from_str` with `trim_text(true)`, then `read_event` until the end of
/// input, each text event unescaped (`BytesText::unescape`). Claimed: the events, or the first
/// error's message, are the ones named `xml_pieces` of the text.
#[verifier::external_body]
fn read_xml_pieces(xml: &str) -> (r: Result<Vec<Option<String>>, String>)
    ensures
        xml_pieces(xml@) == (match r {
            Ok(v) => Ok(pieces_view(v@)),
            Err(m) => Err(m@),
        }),
{
    let mut reader = quick_xml::Reader::from_str(xml);
    reader.config_mut().trim_text(true);
    let mut out = Vec::new();
    loop {
        match reader.read_event() {
            Ok(quick_xml::events::Event::Text(t)) => match t.unescape() {
                Ok(text) => out.push(Some(text.into_owned())),
                Err(e) => return Err(e.to_string()),
            },
            Ok(quick_xml::events::Event::Eof) => return Ok(out),
            Ok(_) => out.push(None),
            Err(e) => return Err(e.to_string()),
        }
    }
}

/// The text runs among the pieces of an XML document, in order.
pub open spec fn text_runs(p: Seq<Option<Seq<char>>>) -> Seq<Seq<char>>
    decreases p.len(),
{
    if p.len() == 0 {
        seq![]
    } else {
        match p.last() {
            Some(t) => text_runs(p.drop_last()).push(t),
            None => text_runs(p.drop_last()),
        }
    }
}

/// The text runs of the pieces read from a document's XML (see `text_runs`).
pub fn text_runs_of(pieces: &[Option<String>]) -> (r: Vec<String>)
    ensures
        r@.map_values(|s: String| s@) == text_runs(pieces_view(pieces@)),
{
    let ghost pv = pieces_view(pieces@);
    let mut runs: Vec<String> = Vec::new();
    let mut i: usize = 0;
    while i < pieces.len()
        invariant
            i <= pieces@.len(),
            pv == pieces_view(pieces@),
            runs@.map_values(|s: String| s@) == text_runs(pv.take(i as int)),
        decreases pieces.len() - i,
    {
        proof {
            assert(pv.take(i + 1).drop_last() =~= pv.take(i as int));
        }
        match &pieces[i] {
            Some(t) => {
                let ghost before = runs@;
                runs.push(t.clone());
                proof {
                    assert(runs@.map_values(|s: String| s@) =~= before.map_values(|s: String| s@).push(
                        t@,
                    ));
                }
            },
            None => {},
        }
        i = i + 1;
    }
    proof {
        assert(pv.take(pieces@.len() as int) =~= pv);
    }
    runs
}

/// The text of a Word document from the XML of its body (`word/document.xml`): its text runs,
/// each followed by a space; or the message of the XML error.
pub fn docx_text_of_xml(xml: &str) -> (r: Result<String, String>)
    ensures
        match xml_pieces(xml@) {
            Ok(p) => (r matches Ok(t) && t@ == runs_text(text_runs(p))),
            Err(m) => (r matches Err(e) && e@ == m),
        },
{
    match read_xml_pieces(xml) {
        Ok(pieces) => {
            let runs = text_runs_of(pieces.as_slice());
            Ok(docx_text(runs.as_slice()))
        },
        Err(m) => Err(m),
    }
}

/// The converters tried for an older Word document, in order.
#[derive(Debug, Clone, Copy, PartialEq, Eq, Structural)]
pub enum DocTool {
    /// `antiword`, which prints the text.
    Antiword,
    /// LibreOffice (`soffice`), which writes a text file beside the document.
    Soffice,
}

/// What a converter gave.
#[derive(Debug, Clone)]
pub enum DocOutcome {
    /// It succeeded with this text.
    Text(String),
    /// It failed, was missing, or left no text.
    Failed,
}

/// What to do after a converter ran.
#[derive(Debug, Clone)]
pub enum DocStep {
    /// Run this converter.
    Run(DocTool),
    /// This is the document's text.
    Done(String),
    /// No converter could read the document.
    Fail,
}

/// The step after a converter ran: its text is the document's; when `antiword` fails,
/// LibreOffice is tried; when that fails too, the document cannot be read.
pub fn doc_next(tool: DocTool, outcome: DocOutcome) -> (r: DocStep)
    ensures
        outcome matches DocOutcome::Text(t) ==> (r matches DocStep::Done(d) && d@ == t@),
        outcome is Failed && tool == DocTool::Antiword ==> (r matches DocStep::Run(n) && n
            == DocTool::Soffice),
        outcome is Failed && tool == DocTool::Soffice ==> r is Fail,
{
    match outcome {
        DocOutcome::Text(t) => DocStep::Done(t),
        DocOutcome::Failed => match tool {
            DocTool::Antiword => DocStep::Run(DocTool::Soffice),
            DocTool::Soffice => DocStep::Fail,
        },
    }
}

/// The files that are indexed: exactly those with the extension `pdf`, `docx` or `doc`, or
/// one of these forty text and source-code extensions.
pub proof fn lemma_supported_extensions(e: Seq<char>)
    ensures
        supported_extension(e) <==> (
        e == "pdf"@ || e == "docx"@ || e == "doc"@ || e == "txt"@ || e == "md"@ ||
            e == "rst"@ || e == "csv"@ || e == "json"@ || e == "yaml"@ || e == "yml"@ ||
            e == "toml"@ || e == "xml"@ || e == "html"@ || e == "htm"@ || e == "js"@ ||
            e == "jsx"@ || e == "ts"@ || e == "tsx"@ || e == "py"@ || e == "java"@ ||
            e == "rs"@ || e == "go"@ || e == "c"@ || e == "cpp"@ || e == "h"@ || e == "hpp"@ ||
            e == "cs"@ || e == "php"@ || e == "rb"@ || e == "swift"@ || e == "kt"@ ||
            e == "kts"@ || e == "scala"@ || e == "sql"@ || e == "sh"@ || e == "bash"@ ||
            e == "zsh"@ || e == "ps1"@ || e == "env"@ || e == "ini"@ || e == "cfg"@ ||
            e == "conf"@ || e == "log"@
        ),
{
    let te = text_extensions();
    if e == "txt"@ {
        assert(te[0] == e);
    }
    if e == "md"@ {
        assert(te[1] == e);
    }
    if e == "rst"@ {
        assert(te[2] == e);
    }
    if e == "csv"@ {
        assert(te[3] == e);
    }
    if e == "json"@ {
        assert(te[4] == e);
    }
    if e == "yaml"@ {
        assert(te[5] == e);
    }
    if e == "yml"@ {
        assert(te[6] == e);
    }
    if e == "toml"@ {
        assert(te[7] == e);
    }
    if e == "xml"@ {
        assert(te[8] == e);
    }
    if e == "html"@ {
        assert(te[9] == e);
    }
    if e == "htm"@ {
        assert(te[10] == e);
    }
    if e == "js"@ {
        assert(te[11] == e);
    }
    if e == "jsx"@ {
        assert(te[12] == e);
    }
    if e == "ts"@ {
        assert(te[13] == e);
    }
    if e == "tsx"@ {
        assert(te[14] == e);
    }
    if e == "py"@ {
        assert(te[15] == e);
    }
    if e == "java"@ {
        assert(te[16] == e);
    }
    if e == "rs"@ {
        assert(te[17] == e);
    }
    if e == "go"@ {
        assert(te[18] == e);
    }
    if e == "c"@ {
        assert(te[19] == e);
    }
    if e == "cpp"@ {
        assert(te[20] == e);
    }
    if e == "h"@ {
        assert(te[21] == e);
    }
    if e == "hpp"@ {
        assert(te[22] == e);
    }
    if e == "cs"@ {
        assert(te[23] == e);
    }
    if e == "php"@ {
        assert(te[24] == e);
    }
    if e == "rb"@ {
        assert(te[25] == e);
    }
    if e == "swift"@ {
        assert(te[26] == e);
    }
    if e == "kt"@ {
        assert(te[27] == e);
    }
    if e == "kts"@ {
        assert(te[28] == e);
    }
    if e == "scala"@ {
        assert(te[29] == e);
    }
    if e == "sql"@ {
        assert(te[30] == e);
    }
    if e == "sh"@ {
        assert(te[31] == e);
    }
    if e == "bash"@ {
        assert(te[32] == e);
    }
    if e == "zsh"@ {
        assert(te[33] == e);
    }
    if e == "ps1"@ {
        assert(te[34] == e);
    }
    if e == "env"@ {
        assert(te[35] == e);
    }
    if e == "ini"@ {
        assert(te[36] == e);
    }
    if e == "cfg"@ {
        assert(te[37] == e);
    }
    if e == "conf"@ {
        assert(te[38] == e);
    }
    if e == "log"@ {
        assert(te[39] == e);
    }
    if te.contains(e) {
        let i = choose|i: int| 0 <= i < te.len() && te[i] == e;
        assert(0 <= i < 40);
    }
}

} // verus!
