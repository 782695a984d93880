//! Packet payloads on the ledger's tryte alphabet: serialized bytes are
//! base64-encoded (URL-safe, unpadded) and the resulting text is converted
//! to trytes, two trytes per character; unwrapping runs the same pipeline
//! backwards. The base64 and tryte conversions are performed by outside
//! crates behind the trusted wrappers below.

use vstd::prelude::*;
use vstd::utf8::is_ascii_chars;

verus! {

/// The tryte alphabet: '9' then 'A' to 'Z'.
pub open spec fn tryte_char(i: int) -> char {
    seq![
        '9',
        'A',
        'B',
        'C',
        'D',
        'E',
        'F',
        'G',
        'H',
        'I',
        'J',
        'K',
        'L',
        'M',
        'N',
        'O',
        'P',
        'Q',
        'R',
        'S',
        'T',
        'U',
        'V',
        'W',
        'X',
        'Y',
        'Z',
    ][i]
}

/// The position of a character in the tryte alphabet, or -1.
pub open spec fn tryte_index(c: char) -> int {
    if c == '9' {
        0
    } else if 'A' <= c && c <= 'Z' {
        c as int - 'A' as int + 1
    } else {
        -1
    }
}

/// Whether the tryte converter supports a character: printable ASCII.
pub open spec fn supported_char(c: char) -> bool {
    ' ' <= c && c <= '~'
}

/// The two trytes encoding one supported character, low digit first.
pub open spec fn char_trytes(c: char) -> Seq<char> {
    seq![tryte_char((c as int) % 27), tryte_char((c as int) / 27)]
}

/// The tryte encoding of a text of supported characters.
pub open spec fn trytes_of(s: Seq<char>) -> Seq<char>
    decreases s.len(),
{
    if s.len() == 0 {
        Seq::empty()
    } else {
        char_trytes(s[0]) + trytes_of(s.drop_first())
    }
}

/// Every character of the sequence is a tryte.
pub open spec fn all_trytes(t: Seq<char>) -> bool {
    forall|i: int| 0 <= i < t.len() ==> tryte_index(#[trigger] t[i]) >= 0
}

/// The text decoded from an even-length tryte sequence: each pair yields
/// one character; pairs outside the supported range are skipped.
pub open spec fn string_of_trytes(t: Seq<char>) -> Seq<char>
    decreases t.len(),
{
    if t.len() < 2 {
        Seq::empty()
    } else {
        let d = tryte_index(t[0]) + tryte_index(t[1]) * 27;
        let rest = string_of_trytes(t.skip(2));
        if 32 <= d <= 126 {
            seq![((d as u32) as char)] + rest
        } else {
            rest
        }
    }
}

/// What the URL-safe unpadded base64 encoding of a byte sequence is.
pub uninterp spec fn base64_url_of(data: Seq<u8>) -> Seq<char>;

/// What URL-safe unpadded base64 decoding yields on a text, when it is
/// well formed.
pub uninterp spec fn base64_url_decoded(s: Seq<char>) -> Option<Seq<u8>>;

/// Relies on base64's URL-safe no-pad engine: the encoding is a function of
/// the bytes alone, over the documented URL-safe alphabet (printable ASCII).
#[verifier::external_body]
fn b64_encode(data: &Vec<u8>) -> (r: String)
    ensures
        r@ == base64_url_of(data@),
        forall|i: int| 0 <= i < r@.len() ==> supported_char(#[trigger] r@[i]),
{
    base64::engine::Engine::encode(&base64::engine::general_purpose::URL_SAFE_NO_PAD, data)
}

#[verifier::external_type_specification]
#[verifier::external_body]
pub struct ExDecodeError(base64::DecodeError);

/// Relies on base64's URL-safe no-pad engine: decoding succeeds exactly on
/// well-formed input and is a function of the characters alone.
#[verifier::external_body]
fn b64_decode(s: &str) -> (r: Result<Vec<u8>, base64::DecodeError>)
    ensures
        r is Ok <==> base64_url_decoded(s@) is Some,
        r matches Ok(v) ==> Some(v@) == base64_url_decoded(s@),
{
    base64::engine::Engine::decode(&base64::engine::general_purpose::URL_SAFE_NO_PAD, s)
}

/// Relies on iota-conversion's trytes converter: each supported (printable
/// ASCII) character becomes two trytes, low digit first; any other character
/// is refused. The converter's error value says no more than that, and is
/// dropped.
#[verifier::external_body]
fn to_trytes(input: &str) -> (r: Option<String>)
    ensures
        r is Some <==> (forall|i: int|
            0 <= i < input@.len() ==> supported_char(#[trigger] input@[i])),
        r matches Some(t) ==> t@ == trytes_of(input@),
{
    iota_conversion::trytes_converter::to_trytes(input).ok()
}

/// Relies on iota-conversion's trytes converter: pairs of trytes decode to
/// characters, a trailing odd tryte is dropped, pairs outside the supported
/// range are skipped, and any non-tryte character is refused. The
/// converter's error value says no more than that, and is dropped.
#[verifier::external_body]
fn trytes_to_string(input: &str) -> (r: Option<String>)
    requires
        is_ascii_chars(input@),
    ensures
        r is Some <==> all_trytes(input@.take(2 * (input@.len() as int / 2))),
        r matches Some(s) ==> s@ == string_of_trytes(input@.take(2 * (input@.len() as int / 2))),
{
    iota_conversion::trytes_converter::to_string(input).ok()
}

/// How unwrapping a tryte payload fails.
#[derive(Clone, Copy, PartialEq, Eq, Structural, Debug)]
pub enum PayloadError {
    /// The payload text is not a tryte string.
    NotTrytes,
    /// The decoded text is not URL-safe base64.
    NotBase64,
}

/// Read access to a tryte packet's two payload parts.
pub trait PacketPayload {
    /// The public payload trytes.
    fn public_data(&self) -> &String;

    /// The masked payload trytes.
    fn masked_data(&self) -> &String;
}

/// Model of a tryte packet payload.
#[verifier::ext_equal]
pub ghost struct PayloadModel {
    pub public: Seq<char>,
    pub masked: Seq<char>,
}

/// A packet payload on the tryte alphabet: the public part and the masked
/// part, each a tryte string.
pub struct Payload {
    pub public: String,
    pub masked: String,
}

impl View for Payload {
    type V = PayloadModel;

    open spec fn view(&self) -> PayloadModel {
        PayloadModel { public: self.public@, masked: self.masked@ }
    }
}

impl Payload {
    /// Unwraps a tryte payload back to the serialized bytes it carries:
    /// trytes to text, then base64 decoding.
    pub fn unwrap_data(data: &String) -> (r: Result<Vec<u8>, PayloadError>)
        ensures
            ({
                let even = data@.take(2 * (data@.len() as int / 2));
                match r {
                    Result::Ok(v) => is_ascii_chars(data@) && all_trytes(even)
                        && base64_url_decoded(string_of_trytes(even)) == Some(v@),
                    Result::Err(PayloadError::NotTrytes) => !is_ascii_chars(data@) || !all_trytes(
                        even,
                    ),
                    Result::Err(PayloadError::NotBase64) => is_ascii_chars(data@) && all_trytes(
                        even,
                    ) && base64_url_decoded(string_of_trytes(even)) is None,
                }
            }),
    {
        if !data.as_str().is_ascii() {
            return Err(PayloadError::NotTrytes);
        }
        let raw = match trytes_to_string(data.as_str()) {
            Some(s) => s,
            None => {
                return Err(PayloadError::NotTrytes);
            },
        };
        match b64_decode(raw.as_str()) {
            Ok(v) => Ok(v),
            Err(_) => Err(PayloadError::NotBase64),
        }
    }
}

impl PacketPayload for Payload {
    fn public_data(&self) -> &String {
        &self.public
    }

    fn masked_data(&self) -> &String {
        &self.masked
    }
}

/// Model of a tryte payload builder.
#[verifier::ext_equal]
pub ghost struct PayloadBuilderModel {
    pub p_data: Seq<char>,
    pub m_data: Seq<char>,
}

/// Collects the two parts of an outgoing packet payload, converting each
/// from serialized bytes to trytes.
pub struct PayloadBuilder {
    p_data: String,
    m_data: String,
}

impl View for PayloadBuilder {
    type V = PayloadBuilderModel;

    closed spec fn view(&self) -> PayloadBuilderModel {
        PayloadBuilderModel { p_data: self.p_data@, m_data: self.m_data@ }
    }
}

impl PayloadBuilder {
    /// An empty builder: both parts empty.
    pub fn new() -> (r: Self)
        ensures
            r@.p_data.len() == 0,
            r@.m_data.len() == 0,
    {
        PayloadBuilder { p_data: String::new(), m_data: String::new() }
    }

    /// Sets the public part: the bytes, base64-encoded and converted to
    /// trytes.
    pub fn public(self, data: &Vec<u8>) -> (r: Self)
        ensures
            r@.p_data == trytes_of(base64_url_of(data@)),
            r@.m_data == self@.m_data,
    {
        let encoded = b64_encode(data);
        let mut b = self;
        b.p_data = match to_trytes(encoded.as_str()) {
            Some(t) => t,
            None => vstd::pervasive::unreached(),
        };
        b
    }

    /// Sets the masked part: the bytes, base64-encoded and converted to
    /// trytes.
    pub fn masked(self, data: &Vec<u8>) -> (r: Self)
        ensures
            r@.m_data == trytes_of(base64_url_of(data@)),
            r@.p_data == self@.p_data,
    {
        let encoded = b64_encode(data);
        let mut b = self;
        b.m_data = match to_trytes(encoded.as_str()) {
            Some(t) => t,
            None => vstd::pervasive::unreached(),
        };
        b
    }

    /// The payload carrying the collected tryte parts.
    pub fn build(&self) -> (r: Payload)
        ensures
            r@.public == self@.p_data,
            r@.masked == self@.m_data,
    {
        Payload { public: self.p_data.clone(), masked: self.m_data.clone() }
    }
}

} // verus!
