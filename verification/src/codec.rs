//! The record codec: decodes one line of text into a `Record` and re-encodes a
//! surviving record as one line of text. Parsing and serializing are done by
//! serde_json; everything the rest of the pipeline reads of a record is pulled
//! out here into plain values.

use vstd::prelude::*;
use vstd::string::StrSliceExecFns;

verus! {

/// Whether a line of text parses as one JSON value.
pub uninterp spec fn json_wf(line: Seq<char>) -> bool;

/// The identity carried by a well-formed line: the characters of its top-level
/// `signature` member when that member is a string, and `None` otherwise.
pub uninterp spec fn json_sig(line: Seq<char>) -> Option<Seq<char>>;

/// The error indicator of a well-formed line: `None` when it has no `/meta/err`
/// member, `Some(true)` when that member is JSON null, `Some(false)` otherwise.
pub uninterp spec fn json_err(line: Seq<char>) -> Option<bool>;

/// The canonical single-line re-encoding of the value parsed from a well-formed
/// line.
pub uninterp spec fn json_enc(line: Seq<char>) -> Seq<char>;

/// What reading the top-level `signature` member of a parsed value returns.
pub uninterp spec fn sig_of(v: serde_json::Value) -> Option<Seq<char>>;

/// What probing the `/meta/err` member of a parsed value returns.
pub uninterp spec fn err_of(v: serde_json::Value) -> Option<bool>;

/// What serializing a parsed value back to text returns.
pub uninterp spec fn enc_of(v: serde_json::Value) -> Seq<char>;

#[verifier::external_type_specification]
#[verifier::external_body]
pub struct ExValue(serde_json::Value);

/// Relies on serde_json::from_str::<Value>: it succeeds exactly on lines that
/// are valid JSON text, and it is a deterministic function of the line's
/// characters, so each attribute of the parsed value is one too.
#[verifier::external_body]
fn parse_value(line: &str) -> (r: Option<serde_json::Value>)
    ensures
        r.is_some() == json_wf(line@),
        (r matches Some(v) ==> sig_of(v) == json_sig(line@) && err_of(v) == json_err(line@)
            && enc_of(v) == json_enc(line@)),
{
    serde_json::from_str::<serde_json::Value>(line).ok()
}

/// Relies on serde_json::Value::get and the Value enum: returns the string
/// under the top-level `signature` key when there is one.
#[verifier::external_body]
fn read_signature(v: &serde_json::Value) -> (r: Option<String>)
    ensures
        (r matches Some(s) ==> sig_of(*v) == Some(s@)),
        r is None ==> sig_of(*v) is None,
{
    match v.get("signature") {
        Some(serde_json::Value::String(s)) => Some(s.clone()),
        _ => None,
    }
}

/// Relies on serde_json::Value::pointer: `None` when the value has no
/// `/meta/err` member; otherwise it tells a JSON null apart from any other
/// value there.
#[verifier::external_body]
fn read_err(v: &serde_json::Value) -> (r: Option<bool>)
    ensures
        r == err_of(*v),
{
    match v.pointer("/meta/err") {
        None => None,
        Some(serde_json::Value::Null) => Some(true),
        Some(_) => Some(false),
    }
}

/// Relies on serde_json::to_string: serializing a `Value` cannot fail (JSON
/// object keys are strings and its numbers are finite), the compact output is
/// deterministic, and control characters are escaped, so the result holds no
/// line break.
#[verifier::external_body]
fn write_value(v: &serde_json::Value) -> (r: String)
    ensures
        r@ == enc_of(*v),
        forall|i: int| 0 <= i < r@.len() ==> r@[i] != '\n',
{
    serde_json::to_string(v).unwrap()
}

/// The error indicator found in a record: the designated error member may be
/// absent, present and null, or present with any other value.
#[derive(PartialEq, Eq, Structural, Clone, Copy, Debug)]
pub enum ErrMark {
    Absent,
    Null,
    Present,
}

/// The error indicator as the codec reports it: `None` for an absent member,
/// `Some(true)` for a null one, `Some(false)` for any other.
pub open spec fn err_mark_view(m: ErrMark) -> Option<bool> {
    match m {
        ErrMark::Absent => None,
        ErrMark::Null => Some(true),
        ErrMark::Present => Some(false),
    }
}

/// The view of an optional owned string as an optional character sequence.
pub open spec fn opt_str_view(o: Option<String>) -> Option<Seq<char>> {
    match o {
        Some(s) => Some(s@),
        None => None,
    }
}

/// One decoded record: the members of the parsed value that the pipeline
/// reads, held as plain values, together with the value's canonical
/// re-encoding. The source line it was decoded from is kept as ghost state.
pub struct Record {
    pub(crate) signature: Option<String>,
    pub(crate) err: ErrMark,
    pub(crate) encoded: String,
    pub(crate) line: Ghost<Seq<char>>,
}

impl Record {
    /// The source line this record was decoded from.
    pub closed spec fn src(self) -> Seq<char> {
        self.line@
    }

    /// A record is well formed when its fields are exactly what decoding its
    /// source line yields.
    pub closed spec fn wf(self) -> bool {
        &&& json_wf(self.line@)
        &&& opt_str_view(self.signature) == json_sig(self.line@)
        &&& err_mark_view(self.err) == json_err(self.line@)
        &&& self.encoded@ == json_enc(self.line@)
    }

    /// The identity of a well-formed record, as a plain value.
    pub fn identity(&self) -> (r: &Option<String>)
        requires
            self.wf(),
        ensures
            opt_str_view(*r) == json_sig(self.src()),
    {
        &self.signature
    }

    /// The error indicator of a well-formed record, as a plain value.
    pub fn err_mark(&self) -> (r: ErrMark)
        requires
            self.wf(),
        ensures
            err_mark_view(r) == json_err(self.src()),
    {
        self.err
    }

    /// Re-emit the record as one line of text.
    pub fn encode(&self) -> (r: String)
        requires
            self.wf(),
        ensures
            r@ == json_enc(self.src()),
    {
        self.encoded.clone()
    }
}

/// Decode one line of text into a record; `None` exactly when the line is not
/// valid JSON. A malformed line surfaces only as `None`, never as a failure.
pub fn decode(line: &str) -> (r: Option<Record>)
    ensures
        r.is_some() == json_wf(line@),
        (r matches Some(rec) ==> rec.wf() && rec.src() == line@),
{
    match parse_value(line) {
        None => None,
        Some(v) => {
            let signature = read_signature(&v);
            let probed = read_err(&v);
            let encoded = write_value(&v);
            let err = match probed {
                None => ErrMark::Absent,
                Some(true) => ErrMark::Null,
                Some(false) => ErrMark::Present,
            };
            Some(Record { signature, err, encoded, line: Ghost(line@) })
        },
    }
}

/// A character that counts as line whitespace.
pub open spec fn space_char(c: char) -> bool {
    c == ' ' || c == '\t' || c == '\r' || c == '\n'
}

/// A line holding nothing but whitespace; such lines are skipped upstream of
/// decoding and are never attempted as records.
pub open spec fn blank(l: Seq<char>) -> bool {
    forall|i: int| 0 <= i < l.len() ==> space_char(#[trigger] l[i])
}

/// Whether a line holds nothing but whitespace.
pub fn is_blank(s: &str) -> (r: bool)
    ensures
        r == blank(s@),
{
    let n = s.unicode_len();
    let mut i: usize = 0;
    while i < n
        invariant
            n == s@.len(),
            0 <= i <= n,
            forall|j: int| 0 <= j < i ==> space_char(#[trigger] s@[j]),
        decreases n - i,
    {
        let c = s.get_char(i);
        if !(c == ' ' || c == '\t' || c == '\r' || c == '\n') {
            assert(!space_char(s@[i as int]));
            return false;
        }
        i += 1;
    }
    true
}

} // verus!
