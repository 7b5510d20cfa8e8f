//! Turning the bytes of a downloaded script into text: UTF-8 when they are
//! valid UTF-8, otherwise the encoding that `chardetng` guesses, decoded by
//! `encoding_rs`.
use vstd::prelude::*;

use crate::error::{PassageError, PassageErrorView};

verus! {

broadcast use vstd::string::group_string_axioms;

#[verifier::external_type_specification]
#[verifier::external_body]
pub struct ExEncodingDetector(chardetng::EncodingDetector);

#[verifier::external_type_specification]
#[verifier::external_body]
pub struct ExEncoding(encoding_rs::Encoding);

#[verifier::external_type_specification]
#[verifier::external_body]
pub struct ExFromUtf8Error(std::string::FromUtf8Error);

/// The bytes fed to a `chardetng::EncodingDetector` so far, all chunks concatenated.
pub uninterp spec fn detector_fed(d: chardetng::EncodingDetector) -> Seq<u8>;

/// Whether the end of the stream was signalled to the detector (`last == true`).
pub uninterp spec fn detector_closed(d: chardetng::EncodingDetector) -> bool;

/// The name of the encoding that `chardetng` guesses, with no top-level domain
/// and UTF-8 allowed, from the stream `fed` (ended when `closed`).
pub uninterp spec fn chardet_guess(fed: Seq<u8>, closed: bool) -> Seq<char>;

/// What `encoding_rs::Encoding::decode` gives for the encoding named
/// `encoding` on `bytes`: the text and whether malformed sequences were replaced.
pub uninterp spec fn encoding_decode(encoding: Seq<char>, bytes: Seq<u8>) -> (Seq<char>, bool);

/// An encoding of `encoding_rs` together with its name. Only
/// [`detector_guess`] builds one.
pub struct DetectedEncoding {
    name: String,
    encoding: &'static encoding_rs::Encoding,
}

impl View for DetectedEncoding {
    type V = Seq<char>;

    /// The encoding's name.
    closed spec fn view(&self) -> Seq<char> {
        self.name@
    }
}

impl DetectedEncoding {
    /// The encoding's name, such as `GBK`.
    pub fn name(&self) -> (r: &str)
        ensures
            r@ == self@,
    {
        self.name.as_str()
    }
}

/// Some byte is not ASCII.
pub open spec fn has_non_ascii(s: Seq<u8>) -> bool {
    exists|i: int| 0 <= i < s.len() && s[i] >= 0x80
}

/// Calls `chardetng::EncodingDetector::new(Iso2022JpDetection::Deny)`.
/// Claims that the new detector has been fed nothing and is open.
#[verifier::external_body]
fn new_detector() -> (d: chardetng::EncodingDetector)
    ensures
        detector_fed(d) == Seq::<u8>::empty(),
        !detector_closed(d),
{
    chardetng::EncodingDetector::new(chardetng::Iso2022JpDetection::Deny)
}

/// Calls `chardetng::EncodingDetector::feed(buffer, last)`, which panics when
/// the stream was already ended. Claims, from its documentation, that the
/// stream becomes the old one followed by `buffer`, that it is ended exactly
/// when `last`, and that the result tells whether the stream holds a non-ASCII byte.
#[verifier::external_body]
fn detector_feed(d: &mut chardetng::EncodingDetector, buffer: &[u8], last: bool) -> (r: bool)
    requires
        !detector_closed(*old(d)),
    ensures
        detector_fed(*final(d)) == detector_fed(*old(d)) + buffer@,
        detector_closed(*final(d)) == last,
        r == has_non_ascii(detector_fed(*final(d))),
{
    d.feed(buffer, last)
}

/// Calls `chardetng::EncodingDetector::guess(None, Utf8Detection::Allow)` and
/// pairs the encoding with its name (`Encoding::name`). Claims that the name is
/// `chardet_guess` of the stream fed, a function of the stream alone.
#[verifier::external_body]
fn detector_guess(d: &chardetng::EncodingDetector) -> (r: DetectedEncoding)
    ensures
        r@ == chardet_guess(detector_fed(*d), detector_closed(*d)),
{
    let encoding = d.guess(None, chardetng::Utf8Detection::Allow);
    DetectedEncoding { name: encoding.name().to_string(), encoding }
}

/// Calls `encoding_rs::Encoding::decode(bytes)` and keeps the text and the
/// flag of malformed sequences. Claims that they are `encoding_decode` of the
/// encoding's name and the bytes, a function of these alone.
#[verifier::external_body]
fn decode_bytes(enc: &DetectedEncoding, bytes: &[u8]) -> (r: (String, bool))
    ensures
        (r.0@, r.1) == encoding_decode(enc@, bytes@),
{
    let (text, _, had_errors) = enc.encoding.decode(bytes);
    (text.into_owned(), had_errors)
}

/// Calls `String::from_utf8(bytes)`. Claims, from its documentation, that it
/// succeeds exactly on valid UTF-8 and then holds the decoded characters.
#[verifier::external_body]
fn string_from_utf8(bytes: Vec<u8>) -> (r: Result<String, std::string::FromUtf8Error>)
    ensures
        r is Ok <==> vstd::utf8::valid_utf8(bytes@),
        r matches Ok(s) ==> s@ == vstd::utf8::decode_utf8(bytes@),
{
    String::from_utf8(bytes)
}

/// The text of `bytes`: their UTF-8 decoding when they are valid UTF-8;
/// otherwise their decoding in the encoding that the detector guesses from
/// all of them, an error naming that encoding when it finds malformed sequences.
pub open spec fn utf8_outcome(bytes: Seq<u8>) -> Result<Seq<char>, PassageErrorView> {
    if vstd::utf8::valid_utf8(bytes) {
        Ok(vstd::utf8::decode_utf8(bytes))
    } else {
        let name = chardet_guess(bytes, true);
        let (text, had_errors) = encoding_decode(name, bytes);
        if had_errors {
            Err(PassageErrorView::InvalidEncoding(name))
        } else {
            Ok(text)
        }
    }
}

/// The guess of the detector for a whole stream given at once.
fn guess_encoding(bytes: &[u8]) -> (r: DetectedEncoding)
    ensures
        r@ == chardet_guess(bytes@, true),
{
    let mut detector = new_detector();
    detector_feed(&mut detector, bytes, true);
    assert(Seq::<u8>::empty() + bytes@ =~= bytes@);
    detector_guess(&detector)
}

/// Converts the bytes of a file to text (see [`utf8_outcome`]).
pub fn convert_to_utf8(bytes: &[u8]) -> (r: Result<String, PassageError>)
    ensures
        r matches Ok(s) ==> utf8_outcome(bytes@) == Ok::<Seq<char>, PassageErrorView>(s@),
        r matches Err(e) ==> utf8_outcome(bytes@) == Err::<Seq<char>, PassageErrorView>(e@),
{
    if let Ok(text) = string_from_utf8(vstd::slice::slice_to_vec(bytes)) {
        return Ok(text);
    }
    let encoding = guess_encoding(bytes);
    let (text, had_errors) = decode_bytes(&encoding, bytes);
    if had_errors {
        return Err(PassageError::InvalidEncoding(encoding.name().to_string()));
    }
    Ok(text)
}

} // verus!
