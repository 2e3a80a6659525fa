//! The client-side encoder: fields serialized into a multipart body, the
//! exact inverse of what the parser consumes. Each part is the boundary
//! marker, CRLF, a `Content-Disposition` line, an optional `Content-Type`
//! line, a blank line, the payload and CRLF; the terminal marker ends the
//! body.

use vstd::prelude::*;
use vstd::string::StringSliceAdditionalSpecFns;

use crate::boundary::{boundary_marker, crlf};
use crate::pattern::clone_bytes;

verus! {

/// The constant head of a part's disposition line, up to the opening
/// quote of the field name.
pub open spec fn k_cd_prefix() -> Seq<u8> {
    "Content-Disposition: form-data; name=\""@.map_values(|c: char| c as u8)
}

/// The bytes between a field name's closing quote and a file name's
/// opening quote.
pub open spec fn k_fn_prefix() -> Seq<u8> {
    "; filename=\""@.map_values(|c: char| c as u8)
}

/// The constant head of a content-type line.
pub open spec fn k_ct_prefix() -> Seq<u8> {
    "Content-Type: "@.map_values(|c: char| c as u8)
}

/// One field to encode, mathematically.
pub struct EncField {
    pub name: Seq<char>,
    pub filename: Option<Seq<char>>,
    pub content_type: Option<Seq<char>>,
    pub content: Seq<u8>,
}

/// The disposition line of a part.
pub open spec fn enc_cd_line(f: EncField) -> Seq<u8> {
    k_cd_prefix() + vstd::utf8::encode_utf8(f.name) + seq![34u8] + (match f.filename {
        Option::Some(n) => k_fn_prefix() + vstd::utf8::encode_utf8(n) + seq![34u8],
        Option::None => Seq::empty(),
    }) + crlf()
}

/// The content-type line of a part, if it has one.
pub open spec fn enc_ct_line(f: EncField) -> Seq<u8> {
    match f.content_type {
        Option::Some(c) => k_ct_prefix() + vstd::utf8::encode_utf8(c) + crlf(),
        Option::None => Seq::empty(),
    }
}

/// One whole part: boundary, CRLF, headers, blank line, payload, CRLF.
pub open spec fn enc_part(bnd: Seq<u8>, f: EncField) -> Seq<u8> {
    bnd + crlf() + enc_cd_line(f) + enc_ct_line(f) + crlf() + f.content + crlf()
}

/// All parts, in order.
pub open spec fn enc_parts(bnd: Seq<u8>, fs: Seq<EncField>) -> Seq<u8>
    decreases fs.len(),
{
    if fs.len() == 0 {
        Seq::empty()
    } else {
        enc_parts(bnd, fs.drop_last()) + enc_part(bnd, fs.last())
    }
}

/// A whole body: the parts, then the terminal marker.
pub open spec fn enc_all(bnd: Seq<u8>, fs: Seq<EncField>) -> Seq<u8> {
    enc_parts(bnd, fs) + bnd + seq![45u8, 45u8]
}

/// One field to encode.
pub struct EncodeField {
    /// The field name.
    pub name: String,
    /// The file name; its presence makes this a file field.
    pub filename: Option<String>,
    /// The content type line's value, if one is to be written.
    pub content_type: Option<String>,
    /// The payload bytes.
    pub content: Vec<u8>,
}

impl EncodeField {
    /// The mathematical content of this field.
    pub open spec fn model(&self) -> EncField {
        EncField {
            name: self.name@,
            filename: match self.filename {
                Option::Some(f) => Option::Some(f@),
                Option::None => Option::None,
            },
            content_type: match self.content_type {
                Option::Some(c) => Option::Some(c@),
                Option::None => Option::None,
            },
            content: self.content@,
        }
    }
}

/// The models of a list of fields.
pub open spec fn enc_models(s: Seq<EncodeField>) -> Seq<EncField> {
    Seq::new(s.len(), |i: int| s[i].model())
}

/// The disposition-line literal's bytes are its characters.
#[verifier::rlimit(60)]
proof fn lemma_cd_prefix()
    ensures
        "Content-Disposition: form-data; name=\"".spec_bytes() == k_cd_prefix(),
{
    vstd::string::is_ascii_spec_bytes("Content-Disposition: form-data; name=\"");
    reveal_strlit("Content-Disposition: form-data; name=\"");
    assert("Content-Disposition: form-data; name=\"".spec_bytes() =~= k_cd_prefix());
}

/// The filename-prefix literal's bytes are its characters.
#[verifier::rlimit(60)]
proof fn lemma_fn_prefix()
    ensures
        "; filename=\"".spec_bytes() == k_fn_prefix(),
{
    vstd::string::is_ascii_spec_bytes("; filename=\"");
    reveal_strlit("; filename=\"");
    assert("; filename=\"".spec_bytes() =~= k_fn_prefix());
}

/// The content-type-prefix literal's bytes are its characters.
#[verifier::rlimit(60)]
proof fn lemma_ct_prefix()
    ensures
        "Content-Type: ".spec_bytes() == k_ct_prefix(),
{
    vstd::string::is_ascii_spec_bytes("Content-Type: ");
    reveal_strlit("Content-Type: ");
    assert("Content-Type: ".spec_bytes() =~= k_ct_prefix());
}

/// Append a string's UTF-8 bytes.
fn push_str_bytes(out: &mut Vec<u8>, s: &str)
    ensures
        final(out)@ == old(out)@ + s.spec_bytes(),
{
    let mut b = s.as_bytes_vec();
    out.append(&mut b);
}

/// Append a CRLF.
fn push_crlf(out: &mut Vec<u8>)
    ensures
        final(out)@ == old(out)@ + crlf(),
{
    out.push(13u8);
    out.push(10u8);
    proof {
        assert(out@ =~= old(out)@ + crlf());
    }
}

/// Append one encoded part.
#[verifier::rlimit(100)]
fn encode_one(out: &mut Vec<u8>, marker: &Vec<u8>, f: &EncodeField)
    ensures
        final(out)@ == old(out)@ + enc_part(marker@, f.model()),
{
    let mut m2 = clone_bytes(marker);
    out.append(&mut m2);
    push_crlf(out);
    push_str_bytes(out, "Content-Disposition: form-data; name=\"");
    proof {
        lemma_cd_prefix();
    }
    push_str_bytes(out, f.name.as_str());
    out.push(34u8);
    match &f.filename {
        Some(fname) => {
            push_str_bytes(out, "; filename=\"");
            proof {
                lemma_fn_prefix();
            }
            push_str_bytes(out, fname.as_str());
            out.push(34u8);
        },
        None => (),
    }
    push_crlf(out);
    match &f.content_type {
        Some(ct) => {
            push_str_bytes(out, "Content-Type: ");
            proof {
                lemma_ct_prefix();
            }
            push_str_bytes(out, ct.as_str());
            push_crlf(out);
        },
        None => (),
    }
    push_crlf(out);
    let mut c2 = clone_bytes(&f.content);
    out.append(&mut c2);
    push_crlf(out);
    proof {
        assert(out@ =~= old(out)@ + enc_part(marker@, f.model()));
    }
}

/// Encode `fields` with the boundary derived from `token`, producing the
/// exact wire bytes of the model.
pub fn encode_fields(token: &str, fields: &Vec<EncodeField>) -> (r: Vec<u8>)
    ensures
        r@ == enc_all(boundary_marker(token@), enc_models(fields@)),
{
    let ghost bnd = boundary_marker(token@);
    let ghost models = enc_models(fields@);
    let mut marker: Vec<u8> = Vec::new();
    marker.push(45u8);
    marker.push(45u8);
    push_str_bytes(&mut marker, token);
    proof {
        assert(marker@ =~= bnd);
    }
    let mut out: Vec<u8> = Vec::new();
    proof {
        assert(out@ =~= enc_parts(bnd, models.take(0)));
    }
    let mut i: usize = 0;
    while i < fields.len()
        invariant
            marker@ == bnd,
            bnd == boundary_marker(token@),
            models == enc_models(fields@),
            models.len() == fields@.len(),
            0 <= i <= fields@.len(),
            out@ == enc_parts(bnd, models.take(i as int)),
        decreases fields@.len() - i,
    {
        encode_one(&mut out, &marker, &fields[i]);
        proof {
            assert(models.take(i + 1).drop_last() =~= models.take(i as int));
            assert(models.take(i + 1).last() == fields@[i as int].model());
        }
        i = i + 1;
    }
    let mut m2 = clone_bytes(&marker);
    out.append(&mut m2);
    out.push(45u8);
    out.push(45u8);
    proof {
        assert(models.take(models.len() as int) =~= models);
        assert(out@ =~= enc_all(bnd, models));
    }
    out
}

} // verus!
