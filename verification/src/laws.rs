//! Properties of the parse model, stated and proved once for all inputs.

use vstd::prelude::*;

use crate::boundary::{crlf, crlf_crlf, boundary_marker, header_split, payload_of, strip_end,
    consume_spec, BoundaryOutcome};
use crate::encode::{EncField, enc_all, enc_cd_line, enc_ct_line, enc_part, enc_parts};
use crate::field::{ErrKind, EntryStep, FieldModel, default_content_type, decode_headers,
    next_entry_spec};
use crate::headers::{HeadersModel, parse_headers_spec};
use crate::pattern::{find_from, is_match, no_match_in, lemma_find_from_is, lemma_find_from_none,
    lemma_find_from_spec, lemma_match_in_window};
use crate::save::{SaveModel, save_spec, push_front};

verus! {

/// A body in which the boundary never occurs is truncated: reading an
/// entry fails with the truncation error, never with a silent empty
/// result.
pub proof fn lemma_missing_boundary_is_truncated(d: Seq<u8>, bnd: Seq<u8>, pos: int)
    requires
        0 <= pos,
        bnd.len() >= 1,
        no_match_in(d, bnd, pos, d.len() as int),
    ensures
        next_entry_spec(d, bnd, pos) == EntryStep::Failed(ErrKind::KTruncated),
{
    lemma_find_from_none(d, bnd, pos);
}

/// A CRLF immediately before the boundary belongs to the delimiter and is
/// never part of the payload; every other byte, CRLF included, is handed
/// back verbatim.
pub proof fn lemma_delimiter_crlf_stripped(d: Seq<u8>, bnd: Seq<u8>, pstart: int)
    requires
        0 <= pstart,
        bnd.len() >= 1,
        find_from(d, bnd, pstart) is Some,
    ensures
        ({
            let b = find_from(d, bnd, pstart)->Some_0;
            let crlf_before = b - 2 >= pstart && d[b - 2] == 13 && d[b - 1] == 10;
            &&& crlf_before ==> payload_of(d, bnd, pstart) == d.subrange(pstart, b - 2)
            &&& !crlf_before ==> payload_of(d, bnd, pstart) == d.subrange(pstart, b)
            &&& forall|k: int|
                0 <= k < payload_of(d, bnd, pstart).len() ==> payload_of(d, bnd, pstart)[k]
                    == d[pstart + k]
        }),
{
    crate::pattern::lemma_find_from_spec(d, bnd, pstart);
}

/// A body with zero parts — the terminal marker standing right at the
/// reading position — ends the stream of parts at once: the single
/// boundary consumption reports the end.
pub proof fn lemma_empty_body_ends_immediately(d: Seq<u8>, bnd: Seq<u8>, pos: int)
    requires
        0 <= pos,
        bnd.len() >= 1,
        crate::pattern::is_match(d, bnd, pos),
        pos + bnd.len() + 2 <= d.len(),
        d[pos + bnd.len()] == 45,
        d[pos + bnd.len() + 1] == 45,
    ensures
        next_entry_spec(d, bnd, pos) == EntryStep::Finished(pos + bnd.len() + 2),
{
    lemma_find_from_is(d, bnd, pos, pos);
}

/// The header bytes the encoder writes for a field: both lines, with
/// their line breaks, without the blank line.
pub open spec fn part_hdr(f: EncField) -> Seq<u8> {
    enc_cd_line(f) + enc_ct_line(f)
}

/// The entry the parser should reproduce for an encoded field.
pub open spec fn field_model_of(f: EncField) -> FieldModel {
    FieldModel {
        name: f.name,
        filename: f.filename,
        content_type: match f.content_type {
            Option::Some(c) => c,
            Option::None => default_content_type(),
        },
        is_file: f.filename is Some,
        content: f.content,
    }
}

/// The entries the parser should reproduce for a list of encoded fields.
pub open spec fn models_of(fs: Seq<EncField>) -> Seq<FieldModel> {
    Seq::new(fs.len(), |i: int| field_model_of(fs[i]))
}

/// The encoded header block parses back to the field's own metadata.
pub open spec fn headers_invert(f: EncField) -> bool {
    parse_headers_spec(part_hdr(f)) == Option::Some(
        HeadersModel {
            name: vstd::utf8::encode_utf8(f.name),
            filename: match f.filename {
                Option::Some(n) => Option::Some(vstd::utf8::encode_utf8(n)),
                Option::None => Option::None,
            },
            content_type: match f.content_type {
                Option::Some(c) => Option::Some(vstd::utf8::encode_utf8(c)),
                Option::None => Option::None,
            },
        },
    )
}

/// The blank line the encoder writes is the first blank line: the header
/// block does not begin with one, and none hides inside it.
pub open spec fn hdr_clear(f: EncField) -> bool {
    &&& part_hdr(f).len() >= 2
    &&& !(part_hdr(f)[0] == 13 && part_hdr(f)[1] == 10)
    &&& find_from(part_hdr(f) + crlf(), crlf_crlf(), 0) == Option::Some(
        part_hdr(f).len() - 2,
    )
}

/// The boundary does not occur inside the field's payload, nor straddling
/// the payload's end into the delimiter that follows it.
pub open spec fn content_clear(f: EncField, bnd: Seq<u8>) -> bool {
    no_match_in(f.content + crlf() + bnd, bnd, 0, f.content.len() as int + 2)
}

/// Every field of the list satisfies the side conditions: its header
/// block inverts, the first blank line is the encoder's, the boundary
/// does not occur in its payload, and a text field's payload is text.
pub open spec fn fields_clear(fs: Seq<EncField>, bnd: Seq<u8>) -> bool {
    forall|k: int|
        0 <= k < fs.len() ==> headers_invert(#[trigger] fs[k]) && hdr_clear(fs[k])
            && content_clear(fs[k], bnd) && (fs[k].filename is None
            ==> vstd::utf8::valid_utf8(fs[k].content))
}

/// The back-recursive part encoding unfolds at the front too.
proof fn lemma_enc_parts_front(bnd: Seq<u8>, fs: Seq<EncField>)
    requires
        fs.len() > 0,
    ensures
        enc_parts(bnd, fs) == enc_part(bnd, fs[0]) + enc_parts(bnd, fs.drop_first()),
    decreases fs.len(),
{
    if fs.len() == 1 {
        assert(fs.drop_last() =~= Seq::<EncField>::empty());
        assert(fs.drop_first() =~= Seq::<EncField>::empty());
        assert(fs.last() == fs[0]);
        assert(enc_part(bnd, fs[0]) + enc_parts(bnd, fs.drop_first()) =~= enc_part(
            bnd,
            fs[0],
        ));
        assert(Seq::<u8>::empty() + enc_part(bnd, fs.last()) =~= enc_part(bnd, fs.last()));
    } else {
        lemma_enc_parts_front(bnd, fs.drop_last());
        assert(fs.drop_last()[0] == fs[0]);
        assert(fs.drop_last().drop_first() =~= fs.drop_first().drop_last());
        assert(fs.drop_first().last() == fs.last());
        assert(enc_parts(bnd, fs) == enc_parts(bnd, fs.drop_last()) + enc_part(
            bnd,
            fs.last(),
        ));
        assert((enc_part(bnd, fs[0]) + enc_parts(bnd, fs.drop_first().drop_last()))
            + enc_part(bnd, fs.last()) =~= enc_part(bnd, fs[0]) + (enc_parts(
            bnd,
            fs.drop_first().drop_last(),
        ) + enc_part(bnd, fs.last())));
    }
}

/// One encoded part, followed by the next delimiter, parses to exactly
/// its field, and the machine lands on that next delimiter.
#[verifier::rlimit(100)]
#[verifier::spinoff_prover]
proof fn lemma_parse_encoded_part(d: Seq<u8>, bnd: Seq<u8>, pos: int, f0: EncField)
    requires
        bnd.len() >= 1,
        0 <= pos,
        pos + enc_part(bnd, f0).len() + bnd.len() <= d.len(),
        d.subrange(pos, pos + enc_part(bnd, f0).len() + bnd.len()) == enc_part(bnd, f0) + bnd,
        headers_invert(f0),
        hdr_clear(f0),
        content_clear(f0, bnd),
        f0.filename is None ==> vstd::utf8::valid_utf8(f0.content),
    ensures
        next_entry_spec(d, bnd, pos) == EntryStep::Next(
            field_model_of(f0),
            pos + bnd.len() + 2 + part_hdr(f0).len() + 2,
        ),
        find_from(d, bnd, pos + bnd.len() + 2 + part_hdr(f0).len() + 2) == Option::Some(
            pos + enc_part(bnd, f0).len(),
        ),
{
    let part = enc_part(bnd, f0);
    let hdr = part_hdr(f0);
    let hlen = hdr.len() as int;
    let clen = f0.content.len() as int;
    let suff = d.subrange(pos, pos + part.len() + bnd.len());
    assert(part =~= bnd + crlf() + hdr + crlf() + f0.content + crlf());
    let p1 = pos + bnd.len();
    let p = p1 + 2;
    let phe = p + hlen;
    let body = phe + 2;
    let bend = body + clen;
    let b = bend + 2;
    assert(part.len() == bnd.len() + 2 + hlen + 2 + clen + 2);
    assert(b == pos + part.len());
    assert forall|k: int| 0 <= k < bnd.len() implies d[pos + k] == bnd[k] by {
        assert(suff[k] == part[k]);
        assert(part[k] == bnd[k]);
    }
    assert(is_match(d, bnd, pos));
    lemma_find_from_is(d, bnd, pos, pos);
    assert(d[p1] == suff[p1 - pos] && suff[p1 - pos] == part[p1 - pos]);
    assert(d[p1] == 13);
    assert(d[p1 + 1] == suff[p1 + 1 - pos] && suff[p1 + 1 - pos] == part[p1 + 1 - pos]);
    assert(d[p1 + 1] == 10);
    assert(!(d[p1] == 45 && d[p1 + 1] == 45));
    assert(consume_spec(d, bnd, pos) == BoundaryOutcome::Part(p));
    assert forall|k: int| 0 <= k < hlen + 2 implies d[p + k] == (hdr + crlf())[k] by {
        assert(d[p + k] == suff[p + k - pos]);
        assert(suff[p + k - pos] == part[p + k - pos]);
    }
    assert(d.subrange(p, phe + 2) =~= hdr + crlf());
    assert(d[p + 0] == (hdr + crlf())[0]);
    assert(d[p + 1] == (hdr + crlf())[1]);
    assert((hdr + crlf())[0] == hdr[0]);
    assert((hdr + crlf())[1] == hdr[1]);
    assert(!(d[p] == 13 && d[p + 1] == 10));
    lemma_find_from_spec(hdr + crlf(), crlf_crlf(), 0);
    assert forall|j: int| p <= j < phe - 2 implies !is_match(d, crlf_crlf(), j) by {
        lemma_match_in_window(d, crlf_crlf(), p, phe + 2, j - p);
        assert(!is_match(hdr + crlf(), crlf_crlf(), j - p));
    }
    lemma_match_in_window(d, crlf_crlf(), p, phe + 2, hlen - 2);
    assert(is_match(d, crlf_crlf(), phe - 2));
    lemma_find_from_is(d, crlf_crlf(), p, phe - 2);
    assert(d.subrange(p, phe) =~= hdr);
    assert(header_split(d, p) == Option::Some((hdr, body)));
    broadcast use vstd::utf8::encode_utf8_valid_utf8, vstd::utf8::encode_utf8_decode_utf8;
    let hm = parse_headers_spec(hdr)->Some_0;
    assert(decode_headers(hm) matches Option::Some(fm0) && fm0 == FieldModel {
        content: Seq::<u8>::empty(),
        ..field_model_of(f0)
    });
    let w = f0.content + crlf() + bnd;
    assert forall|k: int| 0 <= k < w.len() implies d[body + k] == w[k] by {
        assert(d[body + k] == suff[body + k - pos]);
        if body + k - pos < part.len() {
            assert(suff[body + k - pos] == part[body + k - pos]);
        } else {
            assert(suff[body + k - pos] == bnd[body + k - pos - part.len()]);
        }
    }
    assert(d.subrange(body, body + w.len()) =~= w);
    assert forall|j: int| body <= j < b implies !is_match(d, bnd, j) by {
        lemma_match_in_window(d, bnd, body, body + w.len(), j - body);
        assert(!is_match(w, bnd, j - body));
    }
    lemma_match_in_window(d, bnd, body, body + w.len(), clen + 2);
    assert(is_match(w, bnd, clen + 2));
    assert(is_match(d, bnd, b));
    lemma_find_from_is(d, bnd, body, b);
    assert(d[body + clen] == w[clen]);
    assert(w[clen] == (f0.content + crlf() + bnd)[clen]);
    assert(w[clen] == 13);
    assert(d[body + clen + 1] == w[clen + 1]);
    assert(w[clen + 1] == 10);
    assert(b - 2 == body + clen);
    assert(d[b - 2] == 13 && d[b - 1] == 10);
    assert(b - 2 >= body);
    assert(strip_end(d, bnd, body) == bend);
    assert(payload_of(d, bnd, body) =~= f0.content);
    assert(next_entry_spec(d, bnd, pos) == EntryStep::Next(
        FieldModel { content: f0.content, ..field_model_of(f0) },
        body,
    ));
    assert(FieldModel { content: f0.content, ..field_model_of(f0) } == field_model_of(f0));
}

/// Parsing the encoded suffix reproduces the fields, one entry per part.
#[verifier::rlimit(100)]
#[verifier::spinoff_prover]
proof fn lemma_parse_encoded_suffix(d: Seq<u8>, bnd: Seq<u8>, pos: int, fs: Seq<EncField>)
    requires
        bnd.len() >= 1,
        0 <= pos <= d.len(),
        d.subrange(pos, d.len() as int) == enc_parts(bnd, fs) + bnd + seq![45u8, 45u8],
        fields_clear(fs, bnd),
    ensures
        save_spec(d, bnd, pos, Option::None, Option::None, Seq::empty()) == SaveModel::MFull(
            models_of(fs),
        ),
    decreases fs.len(),
{
    let dl = d.len() as int;
    let suff = d.subrange(pos, dl);
    if fs.len() == 0 {
        assert(enc_parts(bnd, fs) + bnd + seq![45u8, 45u8] =~= bnd + seq![45u8, 45u8]);
        assert forall|k: int| 0 <= k < bnd.len() implies d[pos + k] == bnd[k] by {
            assert(suff[k] == bnd[k]);
        }
        assert(is_match(d, bnd, pos));
        lemma_find_from_is(d, bnd, pos, pos);
        let a = pos + bnd.len();
        assert(d[a] == suff[a - pos]);
        assert(d[a + 1] == suff[a + 1 - pos]);
        assert(d[a] == 45 && d[a + 1] == 45);
        assert(a + 2 <= dl);
        assert(consume_spec(d, bnd, pos) == BoundaryOutcome::Finish(a + 2));
        assert(next_entry_spec(d, bnd, pos) == EntryStep::Finished(a + 2));
        assert(models_of(fs) =~= Seq::<FieldModel>::empty());
    } else {
        let f0 = fs[0];
        lemma_enc_parts_front(bnd, fs);
        let part = enc_part(bnd, f0);
        let rest = enc_parts(bnd, fs.drop_first()) + bnd + seq![45u8, 45u8];
        assert(suff =~= part + rest);
        let b = pos + part.len();
        assert(rest.len() >= bnd.len() + 2) by {
            if fs.drop_first().len() == 0 {
                assert(enc_parts(bnd, fs.drop_first()) =~= Seq::<u8>::empty());
            } else {
                assert(enc_parts(bnd, fs.drop_first()).len() >= 0);
            }
        }
        assert forall|k: int| 0 <= k < part.len() + bnd.len() implies d.subrange(
            pos,
            pos + part.len() + bnd.len(),
        )[k] == (part + bnd)[k] by {
            assert(d.subrange(pos, pos + part.len() + bnd.len())[k] == suff[k]);
            if k < part.len() {
                assert(suff[k] == part[k]);
            } else {
                assert(suff[k] == rest[k - part.len()]);
                if fs.drop_first().len() == 0 {
                    assert(enc_parts(bnd, fs.drop_first()) =~= Seq::<u8>::empty());
                    assert(rest[k - part.len()] == bnd[k - part.len()]);
                } else {
                    lemma_enc_parts_front(bnd, fs.drop_first());
                    let part1 = enc_part(bnd, fs.drop_first()[0]);
                    assert(enc_parts(bnd, fs.drop_first())[k - part.len()] == part1[k
                        - part.len()]);
                    assert(part1[k - part.len()] == bnd[k - part.len()]);
                }
            }
        }
        assert(d.subrange(pos, pos + part.len() + bnd.len()) =~= part + bnd);
        lemma_parse_encoded_part(d, bnd, pos, f0);
        let body = pos + bnd.len() + 2 + part_hdr(f0).len() + 2;
        let m = field_model_of(f0);
        assert(dl - b == rest.len());
        assert forall|k: int| 0 <= k < dl - b implies d.subrange(b, dl)[k] == rest[k] by {
            assert(d.subrange(b, dl)[k] == d[b + k]);
            assert(d[b + k] == suff[part.len() + k]);
            assert(suff[part.len() + k] == rest[k]);
        }
        assert(d.subrange(b, dl) =~= rest);
        assert(fields_clear(fs.drop_first(), bnd));
        lemma_parse_encoded_suffix(d, bnd, b, fs.drop_first());
        assert(!Seq::<Seq<char>>::empty().contains(m.name));
        assert(save_spec(d, bnd, pos, Option::None, Option::None, Seq::empty()) == push_front(
            m,
            save_spec(d, bnd, b, Option::None, Option::None, Seq::empty()),
        ));
        assert(seq![m] + models_of(fs.drop_first()) =~= models_of(fs));
    }
}

/// Round trip: encoding fields with a boundary token and parsing the
/// result with the same token reproduces the fields exactly — order kept,
/// names, file names and content types restored, payloads byte-identical.
/// The side conditions say that the boundary does not occur inside a
/// payload and that each header block is the first-blank-line-terminated
/// block that parses back to its field.
pub proof fn lemma_encode_parse_round_trip(token: Seq<char>, fs: Seq<EncField>)
    requires
        vstd::utf8::encode_utf8(token).len() >= 1,
        fields_clear(fs, boundary_marker(token)),
    ensures
        save_spec(
            enc_all(boundary_marker(token), fs),
            boundary_marker(token),
            0,
            Option::None,
            Option::None,
            Seq::empty(),
        ) == SaveModel::MFull(models_of(fs)),
{
    let bnd = boundary_marker(token);
    let d = enc_all(bnd, fs);
    assert(d.subrange(0, d.len() as int) =~= enc_parts(bnd, fs) + bnd + seq![45u8, 45u8]);
    lemma_parse_encoded_suffix(d, bnd, 0, fs);
}

} // verus!
