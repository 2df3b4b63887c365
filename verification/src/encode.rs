//! The encoder: raw image bytes become a self-describing base64 data
//! URI. The format hint is sniffed from the first bytes of the
//! content, never taken from the reference string; the base64 payload
//! itself comes from an outside crate and is only named here.
use vstd::prelude::*;

verus! {

/// The base64 payload that the outside encoder produces for these
/// bytes: MIME base64 with the line breaks removed. A function of the
/// bytes alone; its text is not spelled out here.
pub uninterp spec fn base64_payload_of(bytes: Seq<u8>) -> Seq<char>;

/// The format hint sniffed from the first bytes: the magic numbers of
/// JPEG (`ff d8 ff e0`), PNG, GIF and ICO, tried in that order.
/// Content that matches none of them still encodes, under the most
/// common hint.
pub open spec fn format_hint(b: Seq<u8>) -> Seq<char> {
    if b.len() >= 4 && b[0] == 0xff && b[1] == 0xd8 && b[2] == 0xff && b[3] == 0xe0 {
        "jpeg"@
    } else if b.len() >= 4 && b[0] == 0x89 && b[1] == 0x50 && b[2] == 0x4e && b[3] == 0x47 {
        "png"@
    } else if b.len() >= 4 && b[0] == 0x47 && b[1] == 0x49 && b[2] == 0x46 && b[3] == 0x38 {
        "gif"@
    } else if b.len() >= 4 && b[0] == 0x00 && b[1] == 0x00 && b[2] == 0x01 && b[3] == 0x00 {
        "x-icon"@
    } else {
        "png"@
    }
}

/// The data URI that the encoder produces for these bytes.
pub open spec fn encode_m(b: Seq<u8>) -> Seq<char> {
    "data:image/"@ + format_hint(b) + ";base64,"@ + base64_payload_of(b)
}

fn sniff_hint(bytes: &Vec<u8>) -> (h: &'static str)
    ensures
        h@ == format_hint(bytes@),
{
    if bytes.len() >= 4 && bytes[0] == 0xff && bytes[1] == 0xd8 && bytes[2] == 0xff && bytes[3]
        == 0xe0 {
        "jpeg"
    } else if bytes.len() >= 4 && bytes[0] == 0x89 && bytes[1] == 0x50 && bytes[2] == 0x4e
        && bytes[3] == 0x47 {
        "png"
    } else if bytes.len() >= 4 && bytes[0] == 0x47 && bytes[1] == 0x49 && bytes[2] == 0x46
        && bytes[3] == 0x38 {
        "gif"
    } else if bytes.len() >= 4 && bytes[0] == 0x00 && bytes[1] == 0x00 && bytes[2] == 0x01
        && bytes[3] == 0x00 {
        "x-icon"
    } else {
        "png"
    }
}

/// Relies on image_base64_wasm::vec_to_base64_http: it returns
/// `data:` + the given type + `;base64,` + the MIME base64 of the
/// bytes with its line breaks removed, for any bytes and any type.
#[verifier::external_body]
fn data_uri_with_type(bytes: Vec<u8>, data_type: &str) -> (r: String)
    ensures
        r@ == "data:"@ + data_type@ + ";base64,"@ + base64_payload_of(bytes@),
{
    image_base64_wasm::vec_to_base64_http(bytes, data_type)
}

/// Encode image bytes as a base64 data URI with a sniffed format hint.
/// Deterministic: the result is a function of the bytes alone.
pub fn encode_data_uri(bytes: Vec<u8>) -> (r: String)
    ensures
        r@ == encode_m(bytes@),
{
    let hint = sniff_hint(&bytes);
    let mut data_type = String::from_str("image/");
    data_type.append(hint);
    let ghost b = bytes@;
    let r = data_uri_with_type(bytes, data_type.as_str());
    proof {
        reveal_strlit("data:");
        reveal_strlit("image/");
        reveal_strlit("data:image/");
        assert("data:"@ + "image/"@ =~= "data:image/"@);
        assert(r@ =~= encode_m(b));
    }
    r
}

/// What the encoder returns always starts with `data:image/`, so it is
/// classified as already inlined.
pub proof fn lemma_encode_already_inlined(b: Seq<u8>)
    ensures
        "data:image/"@.is_prefix_of(encode_m(b)),
        crate::classify::spec_classify(encode_m(b)) == crate::classify::RefClass::AlreadyInlined,
{
    assert("data:image/"@ =~= encode_m(b).subrange(0, "data:image/"@.len() as int));
}

} // verus!
