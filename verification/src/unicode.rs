//! Text as Unicode sees it: canonical composition, extended grapheme clusters, and the
//! check that bytes are well-formed UTF-8.
use crate::text::texts;
use unicode_normalization::UnicodeNormalization;
use unicode_segmentation::UnicodeSegmentation;
use vstd::prelude::*;
use vstd::utf8::encode_utf8;
use vstd::utf8::valid_utf8;

verus! {

/// The canonical composition (NFC) of a text.
pub uninterp spec fn nfc_text(text: Seq<char>) -> Seq<char>;

/// The extended grapheme clusters of a text, in order.
pub uninterp spec fn grapheme_clusters(text: Seq<char>) -> Seq<Seq<char>>;

/// `UnicodeNormalization::nfc` collected into a string: the canonical composition. It
/// depends on the text alone (it is `nfc_text` of it), and composing again leaves it as it
/// is.
#[verifier::external_body]
pub(crate) fn nfc(text: &str) -> (r: String)
    ensures
        r@ == nfc_text(text@),
        nfc_text(r@) == r@,
{
    text.nfc().collect()
}

/// `UnicodeSegmentation::graphemes` with extended clusters, each as a string. The clusters
/// depend on the text alone: they are `grapheme_clusters` of it.
#[verifier::external_body]
pub(crate) fn graphemes(text: &str) -> (r: Vec<String>)
    ensures
        texts(r@) == grapheme_clusters(text@),
{
    text.graphemes(true).map(String::from).collect()
}

/// `core::str::from_utf8` and `Utf8Error::valid_up_to`: the text that the bytes encode, or
/// the length of the longest well-formed prefix.
#[verifier::external_body]
pub(crate) fn from_utf8(bytes: &Vec<u8>) -> (r: Result<String, usize>)
    ensures
        r is Ok <==> valid_utf8(bytes@),
        r is Ok ==> encode_utf8(r->Ok_0@) == bytes@,
        r is Err ==> {
            &&& r->Err_0 < bytes@.len()
            &&& valid_utf8(bytes@.take(r->Err_0 as int))
            &&& forall|j: int|
                r->Err_0 < j <= bytes@.len() ==> !valid_utf8(#[trigger] bytes@.take(j))
        },
{
    match std::str::from_utf8(bytes) {
        Ok(text) => Ok(String::from(text)),
        Err(e) => Err(e.valid_up_to()),
    }
}

} // verus!
