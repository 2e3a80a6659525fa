//! The part-header parser: the header block that follows a boundary is a
//! sequence of `Name: value` lines; the `Content-Disposition` line carries
//! the part's field name and, for file fields, a file name; `Content-Type`
//! is optional. The grammar is fixed by the spec functions here, and the
//! executable parser is proved to compute exactly what they say.
//!
//! Leniencies, chosen deliberately: header names and parameter keys are
//! matched ASCII-case-insensitively, surrounding spaces and tabs are
//! ignored, values may be double-quoted, and a line without a colon is
//! skipped rather than fatal. Only a missing `Content-Disposition` or a
//! missing `name` parameter makes the block unusable.

use vstd::prelude::*;

use crate::boundary::crlf;
use crate::pattern::{find_from, find_sub, lemma_find_from_is, lemma_find_from_none,
    lemma_find_from_spec,
    clone_bytes, copy_range, bytes_eq};

verus! {

/// The bytes of `"content-disposition"`.
pub open spec fn k_content_disposition() -> Seq<u8> {
    seq![99u8, 111u8, 110u8, 116u8, 101u8, 110u8, 116u8, 45u8, 100u8, 105u8, 115u8, 112u8, 111u8, 115u8, 105u8, 116u8, 105u8, 111u8, 110u8]
}

/// Exec copy of [`k_content_disposition`].
fn v_content_disposition() -> (r: Vec<u8>)
    ensures
        r@ == k_content_disposition(),
{
    let mut r: Vec<u8> = Vec::new();
    r.push(99u8);
    r.push(111u8);
    r.push(110u8);
    r.push(116u8);
    r.push(101u8);
    r.push(110u8);
    r.push(116u8);
    r.push(45u8);
    r.push(100u8);
    r.push(105u8);
    r.push(115u8);
    r.push(112u8);
    r.push(111u8);
    r.push(115u8);
    r.push(105u8);
    r.push(116u8);
    r.push(105u8);
    r.push(111u8);
    r.push(110u8);
    proof {
        assert(r@ =~= k_content_disposition());
    }
    r
}

/// The bytes of `"content-type"`.
pub open spec fn k_content_type() -> Seq<u8> {
    seq![99u8, 111u8, 110u8, 116u8, 101u8, 110u8, 116u8, 45u8, 116u8, 121u8, 112u8, 101u8]
}

/// Exec copy of [`k_content_type`].
fn v_content_type() -> (r: Vec<u8>)
    ensures
        r@ == k_content_type(),
{
    let mut r: Vec<u8> = Vec::new();
    r.push(99u8);
    r.push(111u8);
    r.push(110u8);
    r.push(116u8);
    r.push(101u8);
    r.push(110u8);
    r.push(116u8);
    r.push(45u8);
    r.push(116u8);
    r.push(121u8);
    r.push(112u8);
    r.push(101u8);
    proof {
        assert(r@ =~= k_content_type());
    }
    r
}

/// The bytes of `"name"`.
pub open spec fn k_param_name() -> Seq<u8> {
    seq![110u8, 97u8, 109u8, 101u8]
}

/// Exec copy of [`k_param_name`].
fn v_param_name() -> (r: Vec<u8>)
    ensures
        r@ == k_param_name(),
{
    let mut r: Vec<u8> = Vec::new();
    r.push(110u8);
    r.push(97u8);
    r.push(109u8);
    r.push(101u8);
    proof {
        assert(r@ =~= k_param_name());
    }
    r
}

/// The bytes of `"filename"`.
pub open spec fn k_param_filename() -> Seq<u8> {
    seq![102u8, 105u8, 108u8, 101u8, 110u8, 97u8, 109u8, 101u8]
}

/// Exec copy of [`k_param_filename`].
fn v_param_filename() -> (r: Vec<u8>)
    ensures
        r@ == k_param_filename(),
{
    let mut r: Vec<u8> = Vec::new();
    r.push(102u8);
    r.push(105u8);
    r.push(108u8);
    r.push(101u8);
    r.push(110u8);
    r.push(97u8);
    r.push(109u8);
    r.push(101u8);
    proof {
        assert(r@ =~= k_param_filename());
    }
    r
}

/// A space or a horizontal tab.
pub open spec fn is_ws(c: u8) -> bool {
    c == 32 || c == 9
}

/// ASCII upper-case letters folded to lower case, all else untouched.
pub open spec fn ascii_lower(b: Seq<u8>) -> Seq<u8> {
    b.map_values(|c: u8| if 65 <= c && c <= 90 { (c + 32) as u8 } else { c })
}

/// Leading spaces and tabs removed.
pub open spec fn trim_start(b: Seq<u8>) -> Seq<u8>
    decreases b.len(),
{
    if b.len() > 0 && is_ws(b[0]) {
        trim_start(b.drop_first())
    } else {
        b
    }
}

/// Trailing spaces and tabs removed.
pub open spec fn trim_end(b: Seq<u8>) -> Seq<u8>
    decreases b.len(),
{
    if b.len() > 0 && is_ws(b[b.len() - 1]) {
        trim_end(b.drop_last())
    } else {
        b
    }
}

/// Surrounding spaces and tabs removed.
pub open spec fn trim(b: Seq<u8>) -> Seq<u8> {
    trim_end(trim_start(b))
}

/// A surrounding double-quote pair removed, if both quotes are there.
pub open spec fn unquote(b: Seq<u8>) -> Seq<u8> {
    if b.len() >= 2 && b[0] == 34 && b[b.len() - 1] == 34 {
        b.subrange(1, b.len() - 1)
    } else {
        b
    }
}

/// The block cut at every CRLF; the final piece may lack one.
pub open spec fn split_at(b: Seq<u8>, sep: Seq<u8>) -> Seq<Seq<u8>>
    decreases b.len() when sep.len() > 0 via split_at_dec
{
    if b.len() == 0 {
        Seq::empty()
    } else {
        match find_from(b, sep, 0) {
            Option::Some(i) => seq![b.subrange(0, i)] + split_at(
                b.skip(i + sep.len()),
                sep,
            ),
            Option::None => seq![b],
        }
    }
}

#[via_fn]
proof fn split_at_dec(b: Seq<u8>, sep: Seq<u8>) {
    if b.len() > 0 && sep.len() > 0 {
        if let Some(i) = find_from(b, sep, 0) {
            lemma_find_from_spec(b, sep, 0);
        }
    }
}

/// A header line split at its first colon: the name, folded and trimmed,
/// and the raw value, trimmed.
pub open spec fn parse_line(line: Seq<u8>) -> Option<(Seq<u8>, Seq<u8>)> {
    match find_from(line, seq![58u8], 0) {
        Option::Some(i) => Option::Some(
            (ascii_lower(trim(line.subrange(0, i))), trim(line.skip(i + 1))),
        ),
        Option::None => Option::None,
    }
}

/// The value of the first header line named `name` (lower case), if any.
pub open spec fn find_header(lines: Seq<Seq<u8>>, name: Seq<u8>) -> Option<Seq<u8>>
    decreases lines.len(),
{
    if lines.len() == 0 {
        Option::None
    } else {
        match parse_line(lines[0]) {
            Option::Some(nv) => if nv.0 == name {
                Option::Some(nv.1)
            } else {
                find_header(lines.drop_first(), name)
            },
            Option::None => find_header(lines.drop_first(), name),
        }
    }
}

/// The value of the first `key=value` segment whose key matches, unquoted.
pub open spec fn find_param(segs: Seq<Seq<u8>>, key: Seq<u8>) -> Option<Seq<u8>>
    decreases segs.len(),
{
    if segs.len() == 0 {
        Option::None
    } else {
        match find_from(segs[0], seq![61u8], 0) {
            Option::Some(i) => if ascii_lower(trim(segs[0].subrange(0, i))) == key {
                Option::Some(unquote(trim(segs[0].skip(i + 1))))
            } else {
                find_param(segs.drop_first(), key)
            },
            Option::None => find_param(segs.drop_first(), key),
        }
    }
}

/// What a parsed header block means: the field name, the optional file
/// name, and the optional content type, all as raw bytes.
pub struct HeadersModel {
    pub name: Seq<u8>,
    pub filename: Option<Seq<u8>>,
    pub content_type: Option<Seq<u8>>,
}

/// The meaning of a whole header block, or `None` where the required
/// `Content-Disposition` name is missing.
pub open spec fn parse_headers_spec(b: Seq<u8>) -> Option<HeadersModel> {
    let lines = split_at(b, crlf());
    match find_header(lines, k_content_disposition()) {
        Option::None => Option::None,
        Option::Some(dv) => {
            let segs = split_at(dv, seq![59u8]);
            match find_param(segs, k_param_name()) {
                Option::None => Option::None,
                Option::Some(nm) => Option::Some(
                    HeadersModel {
                        name: nm,
                        filename: find_param(segs, k_param_filename()),
                        content_type: find_header(lines, k_content_type()),
                    },
                ),
            }
        },
    }
}

/// A parsed header block: the field name and the optional file name and
/// content type, still as raw bytes.
pub struct PartHeaders {
    pub name: Vec<u8>,
    pub filename: Option<Vec<u8>>,
    pub content_type: Option<Vec<u8>>,
}

impl PartHeaders {
    /// The mathematical content of this value.
    pub open spec fn model(&self) -> HeadersModel {
        HeadersModel {
            name: self.name@,
            filename: match self.filename {
                Option::Some(f) => Option::Some(f@),
                Option::None => Option::None,
            },
            content_type: match self.content_type {
                Option::Some(c) => Option::Some(c@),
                Option::None => Option::None,
            },
        }
    }
}

/// Surrounding spaces and tabs removed.
fn trim_exec(v: &Vec<u8>) -> (r: Vec<u8>)
    ensures
        r@ == trim(v@),
{
    proof {
        assert(v@.skip(0) =~= v@);
    }
    let mut s: usize = 0;
    while s < v.len() && (v[s] == 32 || v[s] == 9)
        invariant
            0 <= s <= v@.len(),
            trim_start(v@) == trim_start(v@.skip(s as int)),
        decreases v@.len() - s,
    {
        proof {
            assert(v@.skip(s as int).drop_first() =~= v@.skip(s + 1));
        }
        s = s + 1;
    }
    proof {
        assert(trim_start(v@.skip(s as int)) == v@.skip(s as int));
    }
    let mut e: usize = v.len();
    while e > s && (v[e - 1] == 32 || v[e - 1] == 9)
        invariant
            0 <= s <= e <= v@.len(),
            trim_end(v@.skip(s as int)) == trim_end(v@.subrange(s as int, e as int)),
        decreases e,
    {
        proof {
            assert(v@.subrange(s as int, e as int).drop_last() =~= v@.subrange(
                s as int,
                e - 1,
            ));
        }
        e = e - 1;
    }
    proof {
        assert(trim_end(v@.subrange(s as int, e as int)) == v@.subrange(s as int, e as int));
    }
    copy_range(v, s, e)
}

/// ASCII upper-case letters folded to lower case.
pub(crate) fn lower_exec(v: &Vec<u8>) -> (r: Vec<u8>)
    ensures
        r@ == ascii_lower(v@),
{
    let mut r: Vec<u8> = Vec::new();
    let mut i: usize = 0;
    while i < v.len()
        invariant
            0 <= i <= v@.len(),
            r@.len() == i,
            forall|m: int| 0 <= m < i ==> r@[m] == ascii_lower(v@)[m],
        decreases v@.len() - i,
    {
        let c = v[i];
        if 65 <= c && c <= 90 {
            r.push(c + 32);
        } else {
            r.push(c);
        }
        i = i + 1;
    }
    proof {
        assert(r@ =~= ascii_lower(v@));
    }
    r
}

/// A surrounding double-quote pair removed.
fn unquote_exec(v: &Vec<u8>) -> (r: Vec<u8>)
    ensures
        r@ == unquote(v@),
{
    if v.len() >= 2 && v[0] == 34 && v[v.len() - 1] == 34 {
        copy_range(v, 1, v.len() - 1)
    } else {
        clone_bytes(v)
    }
}

/// The block cut at every occurrence of `sep`.
fn split_exec(b: &Vec<u8>, sep: &Vec<u8>) -> (r: Vec<Vec<u8>>)
    requires
        sep@.len() > 0,
    ensures
        r.deep_view() == split_at(b@, sep@),
{
    let mut rest: Vec<u8> = clone_bytes(b);
    let mut pieces: Vec<Vec<u8>> = Vec::new();
    proof {
        assert(pieces.deep_view() =~= Seq::<Seq<u8>>::empty());
        assert(pieces.deep_view() + split_at(rest@, sep@) =~= split_at(b@, sep@));
    }
    loop
        invariant
            sep@.len() > 0,
            split_at(b@, sep@) == pieces.deep_view() + split_at(rest@, sep@),
        decreases rest@.len(),
    {
        if rest.len() == 0 {
            proof {
                assert(pieces.deep_view() + split_at(rest@, sep@) =~= pieces.deep_view());
            }
            return pieces;
        }
        let ghost prev = pieces.deep_view();
        let ghost prest = rest@;
        match find_sub(&rest, sep) {
            Some(i) => {
                proof {
                    lemma_find_from_is(rest@, sep@, 0, i as int);
                }
                let piece = copy_range(&rest, 0, i);
                let nrest = copy_range(&rest, i + sep.len(), rest.len());
                pieces.push(piece);
                proof {
                    assert(nrest@ =~= prest.skip(i + sep@.len()));
                    assert(pieces.deep_view() =~~= prev.push(prest.subrange(0, i as int)));
                    assert(pieces.deep_view() + split_at(nrest@, sep@) =~~= prev + split_at(
                        prest,
                        sep@,
                    ));
                }
                rest = nrest;
            },
            None => {
                proof {
                    lemma_find_from_none(rest@, sep@, 0);
                }
                pieces.push(rest);
                proof {
                    assert(pieces.deep_view() =~~= prev.push(prest));
                    assert(pieces.deep_view() =~~= prev + split_at(prest, sep@));
                }
                return pieces;
            },
        }
    }
}

/// A header line split at its first colon.
fn parse_line_exec(line: &Vec<u8>) -> (r: Option<(Vec<u8>, Vec<u8>)>)
    ensures
        match (r, parse_line(line@)) {
            (Some(nv), Some(m)) => nv.0@ == m.0 && nv.1@ == m.1,
            (None, None) => true,
            _ => false,
        },
{
    let mut colon: Vec<u8> = Vec::new();
    colon.push(58u8);
    proof {
        assert(colon@ =~= seq![58u8]);
    }
    match find_sub(line, &colon) {
        Some(i) => {
            proof {
                lemma_find_from_is(line@, seq![58u8], 0, i as int);
            }
            let n = line.len();
            let before = copy_range(line, 0, i);
            let after = copy_range(line, i + 1, n);
            let name = lower_exec(&trim_exec(&before));
            let value = trim_exec(&after);
            proof {
                assert(after@ =~= line@.skip(i + 1));
            }
            Some((name, value))
        },
        None => {
            proof {
                lemma_find_from_none(line@, seq![58u8], 0);
            }
            None
        },
    }
}

/// The value of the first header line with the given lower-case name.
fn find_header_exec(lines: &Vec<Vec<u8>>, name: &Vec<u8>) -> (r: Option<Vec<u8>>)
    ensures
        match (r, find_header(lines.deep_view(), name@)) {
            (Some(v), Some(m)) => v@ == m,
            (None, None) => true,
            _ => false,
        },
{
    let ghost dv = lines.deep_view();
    proof {
        assert(dv.skip(0) =~= dv);
    }
    let mut k: usize = 0;
    while k < lines.len()
        invariant
            dv == lines.deep_view(),
            dv.len() == lines@.len(),
            0 <= k <= dv.len(),
            find_header(dv, name@) == find_header(dv.skip(k as int), name@),
        decreases dv.len() - k,
    {
        proof {
            assert(dv.skip(k as int)[0] == lines@[k as int]@);
            assert(dv.skip(k as int).drop_first() =~= dv.skip(k + 1));
        }
        match parse_line_exec(&lines[k]) {
            Some(nv) => {
                if bytes_eq(&nv.0, name) {
                    return Some(nv.1);
                }
            },
            None => {},
        }
        k = k + 1;
    }
    proof {
        assert(dv.skip(dv.len() as int) =~= Seq::<Seq<u8>>::empty());
    }
    None
}

/// The value of the first `key=value` segment whose key matches.
fn find_param_exec(segs: &Vec<Vec<u8>>, key: &Vec<u8>) -> (r: Option<Vec<u8>>)
    ensures
        match (r, find_param(segs.deep_view(), key@)) {
            (Some(v), Some(m)) => v@ == m,
            (None, None) => true,
            _ => false,
        },
{
    let ghost dv = segs.deep_view();
    let mut eqv: Vec<u8> = Vec::new();
    eqv.push(61u8);
    proof {
        assert(eqv@ =~= seq![61u8]);
    }
    proof {
        assert(dv.skip(0) =~= dv);
    }
    let mut k: usize = 0;
    while k < segs.len()
        invariant
            eqv@ == seq![61u8],
            dv == segs.deep_view(),
            dv.len() == segs@.len(),
            0 <= k <= dv.len(),
            find_param(dv, key@) == find_param(dv.skip(k as int), key@),
        decreases dv.len() - k,
    {
        proof {
            assert(dv.skip(k as int)[0] == segs@[k as int]@);
            assert(dv.skip(k as int).drop_first() =~= dv.skip(k + 1));
        }
        let seg = &segs[k];
        match find_sub(seg, &eqv) {
            Some(i) => {
                proof {
                    lemma_find_from_is(seg@, seq![61u8], 0, i as int);
                }
                let before = copy_range(seg, 0, i);
                let kb = lower_exec(&trim_exec(&before));
                if bytes_eq(&kb, key) {
                    let n = seg.len();
                    let after = copy_range(seg, i + 1, n);
                    proof {
                        assert(after@ =~= seg@.skip(i + 1));
                    }
                    return Some(unquote_exec(&trim_exec(&after)));
                }
            },
            None => {
                proof {
                    lemma_find_from_none(seg@, seq![61u8], 0);
                }
            },
        }
        k = k + 1;
    }
    proof {
        assert(dv.skip(dv.len() as int) =~= Seq::<Seq<u8>>::empty());
    }
    None
}

/// Parse a header block. `None` exactly where the grammar finds no
/// `Content-Disposition` header or no `name` parameter in it.
pub fn parse_headers(block: &Vec<u8>) -> (r: Option<PartHeaders>)
    ensures
        match (r, parse_headers_spec(block@)) {
            (Some(h), Some(m)) => h.model() == m,
            (None, None) => true,
            _ => false,
        },
{
    let mut crlf_v: Vec<u8> = Vec::new();
    crlf_v.push(13u8);
    crlf_v.push(10u8);
    proof {
        assert(crlf_v@ =~= crlf());
    }
    let lines = split_exec(block, &crlf_v);
    let dispo = match find_header_exec(&lines, &v_content_disposition()) {
        Some(d) => d,
        None => {
            return None;
        },
    };
    let mut semi: Vec<u8> = Vec::new();
    semi.push(59u8);
    proof {
        assert(semi@ =~= seq![59u8]);
    }
    let segs = split_exec(&dispo, &semi);
    let name = match find_param_exec(&segs, &v_param_name()) {
        Some(n) => n,
        None => {
            return None;
        },
    };
    let filename = find_param_exec(&segs, &v_param_filename());
    let content_type = find_header_exec(&lines, &v_content_type());
    Some(PartHeaders { name, filename, content_type })
}

} // verus!
