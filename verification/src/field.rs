//! The entry state machine: boundaries, header blocks and payload windows
//! sequenced into a stream of classified entries. One entry is live at a
//! time; asking for the next one first drains whatever is left of the
//! current file payload, so unread file contents are dropped, deliberately.

use vstd::prelude::*;

use crate::boundary::{BoundaryOutcome, BoundaryReader, boundary_marker, consume_spec, crlf_crlf,
    chunk_pos_ok, header_split, payload_of, strip_end};
use crate::error::MpError;
use crate::headers::{HeadersModel, parse_headers, parse_headers_spec};
use crate::pattern::find_from;
use crate::request::HttpRequest;
use crate::source::ByteSource;

verus! {

/// The mathematical content of one entry: its field name, its optional
/// file name, its content type, its classification, and its payload bytes.
pub struct FieldModel {
    pub name: Seq<char>,
    pub filename: Option<Seq<char>>,
    pub content_type: Seq<char>,
    pub is_file: bool,
    pub content: Seq<u8>,
}

/// The error kinds of the parse model, plus the transport kind that only
/// a failing source can produce.
pub enum ErrKind {
    KTruncated,
    KMalformedBoundary,
    KMalformedHeaders,
    KInvalidText,
    KTransport,
}

/// The kind of an error value.
pub open spec fn err_kind(e: MpError) -> ErrKind {
    match e {
        MpError::Truncated => ErrKind::KTruncated,
        MpError::MalformedBoundary => ErrKind::KMalformedBoundary,
        MpError::MalformedHeaders(_) => ErrKind::KMalformedHeaders,
        MpError::InvalidText(_) => ErrKind::KInvalidText,
        MpError::Transport(_) => ErrKind::KTransport,
    }
}

/// The content type a file field gets when its part carries none.
pub open spec fn default_content_type() -> Seq<char> {
    "text/plain"@
}

/// The decoded strings of a header model, or `None` where one of them is
/// not valid UTF-8.
pub open spec fn decode_headers(hm: HeadersModel) -> Option<FieldModel> {
    if !vstd::utf8::valid_utf8(hm.name) {
        Option::None
    } else if hm.filename is Some && !vstd::utf8::valid_utf8(hm.filename->Some_0) {
        Option::None
    } else if hm.content_type is Some && !vstd::utf8::valid_utf8(hm.content_type->Some_0) {
        Option::None
    } else {
        Option::Some(
            FieldModel {
                name: vstd::utf8::decode_utf8(hm.name),
                filename: match hm.filename {
                    Option::Some(f) => Option::Some(vstd::utf8::decode_utf8(f)),
                    Option::None => Option::None,
                },
                content_type: match hm.content_type {
                    Option::Some(c) => vstd::utf8::decode_utf8(c),
                    Option::None => default_content_type(),
                },
                is_file: hm.filename is Some,
                content: Seq::empty(),
            },
        )
    }
}

/// One step of the entry machine, starting at an `AtBoundary` position.
pub enum EntryStep {
    /// The terminal marker was consumed; the stream of parts is over.
    Finished(int),
    /// An entry, and the position where its payload starts.
    Next(FieldModel, int),
    /// The step failed with this kind.
    Failed(ErrKind),
}

/// The meaning of reading one entry at position `pos`: consume a boundary,
/// split off the header block, parse and decode it, and locate the payload.
pub open spec fn next_entry_spec(d: Seq<u8>, bnd: Seq<u8>, pos: int) -> EntryStep {
    match consume_spec(d, bnd, pos) {
        BoundaryOutcome::Missing => EntryStep::Failed(ErrKind::KTruncated),
        BoundaryOutcome::Malformed => EntryStep::Failed(ErrKind::KMalformedBoundary),
        BoundaryOutcome::Finish(p) => EntryStep::Finished(p),
        BoundaryOutcome::Part(p) => match header_split(d, p) {
            Option::None => EntryStep::Failed(ErrKind::KTruncated),
            Option::Some(bs) => match parse_headers_spec(bs.0) {
                Option::None => EntryStep::Failed(ErrKind::KMalformedHeaders),
                Option::Some(hm) => match decode_headers(hm) {
                    Option::None => EntryStep::Failed(ErrKind::KMalformedHeaders),
                    Option::Some(fm) => {
                        let body = bs.1;
                        let content = payload_of(d, bnd, body);
                        if fm.is_file {
                            EntryStep::Next(FieldModel { content, ..fm }, body)
                        } else {
                            match find_from(d, bnd, body) {
                                Option::None => EntryStep::Failed(ErrKind::KTruncated),
                                Option::Some(_) => if vstd::utf8::valid_utf8(content) {
                                    EntryStep::Next(FieldModel { content, ..fm }, body)
                                } else {
                                    EntryStep::Failed(ErrKind::KInvalidText)
                                },
                            }
                        }
                    },
                },
            },
        },
    }
}

/// One parsed entry as handed to callers: a text field with its value
/// already materialized, or a file field whose payload is still streaming.
pub enum MultipartField {
    /// A text field.
    Data { name: String, value: String },
    /// A file field; its payload is read afterwards, chunk by chunk.
    File { name: String, filename: Option<String>, content_type: String },
}

/// The returned entry carries exactly what the model says. A data entry's
/// value is its decoded payload; a file entry carries its metadata.
pub open spec fn field_matches(f: MultipartField, m: FieldModel) -> bool {
    match f {
        MultipartField::Data { name, value } => {
            &&& !m.is_file
            &&& name@ == m.name
            &&& vstd::utf8::valid_utf8(m.content)
            &&& value@ == vstd::utf8::decode_utf8(m.content)
        },
        MultipartField::File { name, filename, content_type } => {
            &&& m.is_file
            &&& name@ == m.name
            &&& match (filename, m.filename) {
                (Option::Some(f), Option::Some(mf)) => f@ == mf,
                (Option::None, Option::None) => true,
                _ => false,
            }
            &&& content_type@ == m.content_type
        },
    }
}

/// Where the machine stands.
pub enum MPhase {
    /// Positioned before a boundary (or before the preamble).
    AtBoundary,
    /// Inside a file entry's payload.
    InFile,
    /// The terminal boundary was consumed, or a fatal error was reported.
    Done,
}

/// The server-side face of one `multipart/form-data` body: wraps a byte
/// source and yields entries in order.
pub struct Multipart<S: ByteSource> {
    reader: BoundaryReader<S>,
    state: MPhase,
    pstart: Ghost<int>,
}

/// Relies on String::from_utf8: it succeeds exactly on valid UTF-8 and
/// decodes the bytes.
#[verifier::external_body]
pub(crate) fn bytes_to_string(v: Vec<u8>) -> (r: Option<String>)
    ensures
        match r {
            Option::Some(s) => vstd::utf8::valid_utf8(v@) && s@ == vstd::utf8::decode_utf8(v@),
            Option::None => !vstd::utf8::valid_utf8(v@),
        },
{
    match String::from_utf8(v) {
        Ok(s) => Some(s),
        Err(_) => None,
    }
}

/// What holds after one `read_entry` call: either a transport failure
/// ended the machine, or the result mirrors the entry model at the
/// machine's position — directly when it stood at a boundary, and from the
/// end of the current payload when it stood inside a file entry.
pub open spec fn entry_post<S: ByteSource>(
    pre: Multipart<S>,
    post: Multipart<S>,
    r: Result<Option<MultipartField>, MpError>,
) -> bool {
    &&& post.wf()
    &&& post.data() == pre.data()
    &&& post.bnd() == pre.bnd()
    &&& (r matches Ok(Some(_)) ==> post.pos() > pre.pos())
    &&& match pre.phase() {
        MPhase::Done => r == Result::<Option<MultipartField>, MpError>::Ok(
            Option::<MultipartField>::None,
        ) && post.phase() is Done,
        MPhase::AtBoundary => (r matches Err(MpError::Transport(_)) && post.phase() is Done)
            || entry_mirrors(pre, post, r, pre.pos()),
        MPhase::InFile => (r matches Err(MpError::Transport(_)) && post.phase() is Done)
            || match find_from(pre.data(), pre.bnd(), pre.cur_part()) {
            Option::None => r matches Err(e) && err_kind(e) is KTruncated && post.phase()
                is Done,
            Option::Some(b) => entry_mirrors(pre, post, r, b),
        },
    }
}

/// Where the payload of a part whose headers failed to parse begins:
/// just after its header block's blank line.
pub open spec fn failed_body_pos(d: Seq<u8>, bnd: Seq<u8>, pos: int) -> int {
    match consume_spec(d, bnd, pos) {
        BoundaryOutcome::Part(p) => match header_split(d, p) {
            Option::Some(bs) => bs.1,
            Option::None => 0,
        },
        _ => 0,
    }
}

/// The raw header block of the part at `pos`.
pub open spec fn failed_block(d: Seq<u8>, bnd: Seq<u8>, pos: int) -> Seq<u8> {
    match consume_spec(d, bnd, pos) {
        BoundaryOutcome::Part(p) => match header_split(d, p) {
            Option::Some(bs) => bs.0,
            Option::None => Seq::empty(),
        },
        _ => Seq::empty(),
    }
}

/// The decoded field name of the part at `pos`.
pub open spec fn failed_name(d: Seq<u8>, bnd: Seq<u8>, pos: int) -> Seq<char> {
    vstd::utf8::decode_utf8(parse_headers_spec(failed_block(d, bnd, pos))->Some_0.name)
}

/// The result of `read_entry` matches `next_entry_spec` at `pos`.
pub open spec fn entry_mirrors<S: ByteSource>(
    pre: Multipart<S>,
    post: Multipart<S>,
    r: Result<Option<MultipartField>, MpError>,
    pos: int,
) -> bool {
    match next_entry_spec(pre.data(), pre.bnd(), pos) {
        EntryStep::Finished(_) => {
            &&& r is Ok
            &&& r->Ok_0 is None
            &&& post.phase() is Done
        },
        EntryStep::Next(m, body) => {
            &&& r is Ok
            &&& r->Ok_0 is Some
            &&& field_matches(r->Ok_0->Some_0, m)
            &&& if m.is_file {
                &&& post.phase() is InFile
                &&& post.cur_part() == body
                &&& post.pos() == body
            } else {
                &&& post.phase() is AtBoundary
                &&& post.pos() == find_from(pre.data(), pre.bnd(), body)->Some_0
            }
        },
        EntryStep::Failed(k) => {
            &&& r is Err
            &&& err_kind(r->Err_0) == k
            &&& match k {
                ErrKind::KMalformedHeaders => {
                    &&& post.phase() is InFile
                    &&& post.cur_part() == failed_body_pos(pre.data(), pre.bnd(), pos)
                    &&& post.pos() == failed_body_pos(pre.data(), pre.bnd(), pos)
                    &&& match r->Err_0 {
                        MpError::MalformedHeaders(blk) => blk@ == failed_block(
                            pre.data(),
                            pre.bnd(),
                            pos,
                        ),
                        _ => false,
                    }
                },
                ErrKind::KInvalidText => {
                    &&& post.phase() is AtBoundary
                    &&& post.pos() == find_from(
                        pre.data(),
                        pre.bnd(),
                        failed_body_pos(pre.data(), pre.bnd(), pos),
                    )->Some_0
                    &&& match r->Err_0 {
                        MpError::InvalidText(nm) => nm@ == failed_name(
                            pre.data(),
                            pre.bnd(),
                            pos,
                        ),
                        _ => false,
                    }
                },
                _ => post.phase() is Done,
            }
        },
    }
}

impl<S: ByteSource> Multipart<S> {
    /// The machine is usable: its scanner is, and inside a file entry the
    /// reading position is a valid payload position.
    pub closed spec fn wf(&self) -> bool {
        &&& self.reader.wf()
        &&& (self.state is InFile ==> chunk_pos_ok(
            self.reader.data(),
            self.reader.bnd(),
            self.pstart@,
            self.reader.rpos(),
        ))
    }

    /// The whole underlying stream.
    pub closed spec fn data(&self) -> Seq<u8> {
        self.reader.data()
    }

    /// The boundary marker in use.
    pub closed spec fn bnd(&self) -> Seq<u8> {
        self.reader.bnd()
    }

    /// The current reading position in the stream.
    pub closed spec fn pos(&self) -> int {
        self.reader.rpos()
    }

    /// How far the underlying source has been drained; it never shrinks,
    /// and payload reads that are not yet done strictly grow it.
    pub closed spec fn src_pos(&self) -> int {
        self.reader.spos()
    }

    /// Where the machine stands.
    pub closed spec fn phase(&self) -> MPhase {
        self.state
    }

    /// Where the current file entry's payload starts.
    pub closed spec fn cur_part(&self) -> int {
        self.pstart@
    }

    /// Bounds that hold of every well-formed machine.
    pub proof fn lemma_wf(&self)
        requires
            self.wf(),
        ensures
            0 <= self.pos() <= self.src_pos() <= self.data().len(),
            self.bnd().len() >= 2,
            self.phase() is InFile ==> 0 <= self.cur_part() <= self.pos(),
    {
        self.reader.lemma_wf();
    }

    /// Construct a parser over `body` with the request's boundary token;
    /// the marker is the token prefixed with two hyphens, per the wire
    /// format.
    pub fn with_body(body: S, boundary: &str) -> (r: Self)
        requires
            body.wf(),
        ensures
            r.wf(),
            r.data() == body.data(),
            r.pos() == body.pos(),
            r.bnd() == boundary_marker(boundary@),
            r.phase() is AtBoundary,
    {
        Multipart {
            reader: BoundaryReader::from_reader(body, boundary),
            state: MPhase::AtBoundary,
            pstart: Ghost(0),
        }
    }

    /// Whether the machine is inside a file entry's payload.
    pub fn in_file(&self) -> (r: bool)
        ensures
            r == (self.phase() is InFile),
    {
        match self.state {
            MPhase::InFile => true,
            _ => false,
        }
    }

    /// Whether the machine has reached the end of the stream of parts.
    pub fn is_done(&self) -> (r: bool)
        ensures
            r == (self.phase() is Done),
    {
        match self.state {
            MPhase::Done => true,
            _ => false,
        }
    }

    /// Grow the scanner buffer's capacity. The buffer grows on demand
    /// anyway; this only pre-allocates.
    pub fn set_min_buf_size(&mut self, n: usize)
        requires
            old(self).wf(),
        ensures
            final(self).wf(),
            final(self).data() == old(self).data(),
            final(self).bnd() == old(self).bnd(),
            final(self).pos() == old(self).pos(),
            final(self).phase() == old(self).phase(),
            final(self).cur_part() == old(self).cur_part(),
    {
        self.reader.reserve_lookahead(n);
    }

    /// Read the next entry: `Ok(Some(..))` for a part, `Ok(None)` once the
    /// terminal boundary was consumed (and on every later call). Asking
    /// for the next entry while a file payload is unread first discards
    /// that payload. After a truncated body or a malformed delimiter the
    /// machine reports the end; after a malformed header block or an
    /// undecodable text field the stream position stays consistent, and
    /// the next call carries on with the following part.
    pub fn read_entry(&mut self) -> (r: Result<Option<MultipartField>, MpError>)
        requires
            old(self).wf(),
        ensures
            entry_post(*old(self), *final(self), r),
    {
        proof {
            self.reader.lemma_wf();
        }
        let ghost d = self.data();
        let ghost bv = self.bnd();
        match self.state {
            MPhase::Done => {
                return Ok(None);
            },
            MPhase::InFile => {
                let mut scratch: Vec<u8> = Vec::new();
                match self.drain_payload(&mut scratch) {
                    Ok(()) => (),
                    Err(e) => {
                        self.state = MPhase::Done;
                        return Err(e);
                    },
                }
                self.state = MPhase::AtBoundary;
            },
            MPhase::AtBoundary => (),
        }
        let ghost pos = self.pos();
        match self.reader.consume_boundary() {
            Err(e) => {
                self.state = MPhase::Done;
                Err(e)
            },
            Ok(false) => {
                self.state = MPhase::Done;
                Ok(None)
            },
            Ok(true) => {
                let ghost p = self.pos();
                let block = match self.reader.read_header_block() {
                    Ok(b) => b,
                    Err(e) => {
                        self.state = MPhase::Done;
                        return Err(e);
                    },
                };
                let ghost bodyp = self.pos();
                proof {
                    crate::pattern::lemma_find_from_spec(d, crate::boundary::crlf_crlf(), p);
                    crate::pattern::lemma_find_from_spec(d, bv, self.pos());
                    self.reader.lemma_wf();
                    assert(chunk_pos_ok(d, bv, bodyp, bodyp));
                }
                let ph = match parse_headers(&block) {
                    Some(ph) => ph,
                    None => {
                        self.pstart = Ghost(bodyp);
                        self.state = MPhase::InFile;
                        return Err(MpError::MalformedHeaders(block));
                    },
                };
                let name = match bytes_to_string(ph.name) {
                    Some(n) => n,
                    None => {
                        self.pstart = Ghost(bodyp);
                        self.state = MPhase::InFile;
                        return Err(MpError::MalformedHeaders(block));
                    },
                };
                let filename = match ph.filename {
                    Some(fb) => match bytes_to_string(fb) {
                        Some(f) => Some(f),
                        None => {
                            self.pstart = Ghost(bodyp);
                            self.state = MPhase::InFile;
                            return Err(MpError::MalformedHeaders(block));
                        },
                    },
                    None => None,
                };
                let content_type = match ph.content_type {
                    Some(cb) => match bytes_to_string(cb) {
                        Some(c) => c,
                        None => {
                            self.pstart = Ghost(bodyp);
                            self.state = MPhase::InFile;
                            return Err(MpError::MalformedHeaders(block));
                        },
                    },
                    None => String::from_str("text/plain"),
                };
                let ghost body = self.pos();
                if filename.is_some() {
                    proof {
                        self.reader.lemma_wf();
                        assert(chunk_pos_ok(d, bv, body, self.pos()));
                    }
                    self.pstart = Ghost(body);
                    self.state = MPhase::InFile;
                    Ok(Some(MultipartField::File { name, filename, content_type }))
                } else {
                    proof {
                        self.reader.lemma_wf();
                        assert(chunk_pos_ok(d, bv, body, self.pos()));
                    }
                    let mut content: Vec<u8> = Vec::new();
                    match self.drain_payload_from(Ghost(body), &mut content) {
                        Ok(()) => (),
                        Err(e) => {
                            self.state = MPhase::Done;
                            return Err(e);
                        },
                    }
                    match bytes_to_string(content) {
                        Some(value) => Ok(Some(MultipartField::Data { name, value })),
                        None => Err(MpError::InvalidText(name)),
                    }
                }
            },
        }
    }

    /// Read the remainder of the current file entry's payload to its end,
    /// appending it to `out`; the machine then stands at the boundary.
    pub(crate) fn drain_payload(&mut self, out: &mut Vec<u8>) -> (r: Result<(), MpError>)
        requires
            old(self).wf(),
            old(self).phase() is InFile,
        ensures
            final(self).wf(),
            final(self).data() == old(self).data(),
            final(self).bnd() == old(self).bnd(),
            final(self).cur_part() == old(self).cur_part(),
            match r {
                Ok(()) => {
                    &&& final(self).phase() is AtBoundary
                    &&& find_from(old(self).data(), old(self).bnd(), old(self).cur_part())
                        == Some(final(self).pos())
                    &&& final(out)@ == old(out)@ + old(self).data().subrange(
                        old(self).pos(),
                        strip_end(old(self).data(), old(self).bnd(), old(self).cur_part()),
                    )
                    &&& old(self).pos() <= strip_end(
                        old(self).data(),
                        old(self).bnd(),
                        old(self).cur_part(),
                    )
                },
                Err(MpError::Truncated) => find_from(
                    old(self).data(),
                    old(self).bnd(),
                    old(self).cur_part(),
                ) is None && final(self).phase() is Done,
                Err(MpError::Transport(_)) => final(self).phase() is Done,
                Err(_) => false,
            },
    {
        let ghost ps = self.pstart@;
        self.drain_payload_from(Ghost(ps), out)
    }

    /// The common payload loop: from a valid payload position, stream the
    /// rest of the payload into `out` and stop at the boundary.
    fn drain_payload_from(&mut self, Ghost(ps): Ghost<int>, out: &mut Vec<u8>) -> (r: Result<
        (),
        MpError,
    >)
        requires
            old(self).wf(),
            chunk_pos_ok(old(self).data(), old(self).bnd(), ps, old(self).pos()),
            old(self).phase() is InFile ==> old(self).cur_part() == ps,
        ensures
            final(self).wf(),
            final(self).data() == old(self).data(),
            final(self).bnd() == old(self).bnd(),
            final(self).cur_part() == old(self).cur_part(),
            match r {
                Ok(()) => {
                    &&& final(self).phase() is AtBoundary
                    &&& find_from(old(self).data(), old(self).bnd(), ps) == Some(
                        final(self).pos(),
                    )
                    &&& final(out)@ == old(out)@ + old(self).data().subrange(
                        old(self).pos(),
                        strip_end(old(self).data(), old(self).bnd(), ps),
                    )
                    &&& old(self).pos() <= strip_end(old(self).data(), old(self).bnd(), ps)
                },
                Err(MpError::Truncated) => find_from(old(self).data(), old(self).bnd(), ps)
                    is None && final(self).phase() is Done,
                Err(MpError::Transport(_)) => final(self).phase() is Done,
                Err(_) => false,
            },
    {
        let ghost d = self.data();
        let ghost bv = self.bnd();
        let ghost p0 = self.pos();
        proof {
            self.reader.lemma_wf();
            crate::pattern::lemma_find_from_spec(d, bv, ps);
            assert(out@ =~= old(out)@ + d.subrange(p0, p0));
        }
        loop
            invariant
                self.wf(),
                self.data() == d,
                self.bnd() == bv,
                d == old(self).data(),
                bv == old(self).bnd(),
                p0 == old(self).pos(),
                self.cur_part() == old(self).cur_part(),
                self.phase() is InFile ==> self.cur_part() == ps,
                chunk_pos_ok(d, bv, ps, self.pos()),
                chunk_pos_ok(d, bv, ps, p0),
                0 <= p0 <= self.pos(),
                out@ == old(out)@ + d.subrange(p0, self.pos()),
                (match find_from(d, bv, ps) {
                    Option::Some(b) => self.pos() <= strip_end(d, bv, ps),
                    Option::None => true,
                }),
            decreases d.len() - self.reader.spos(),
        {
            proof {
                self.reader.lemma_wf();
            }
            let ghost before = self.pos();
            match self.reader.read_payload_chunk(Ghost(ps), out) {
                Ok(true) => {
                    proof {
                        self.reader.lemma_wf();
                        crate::pattern::lemma_find_from_spec(d, bv, ps);
                        assert(d.subrange(p0, before) + d.subrange(
                            before,
                            strip_end(d, bv, ps),
                        ) =~= d.subrange(p0, strip_end(d, bv, ps)));
                        assert(out@ =~= old(out)@ + d.subrange(p0, strip_end(d, bv, ps)));
                    }
                    self.state = MPhase::AtBoundary;
                    return Ok(());
                },
                Ok(false) => {
                    proof {
                        self.reader.lemma_wf();
                        crate::pattern::lemma_find_from_spec(d, bv, ps);
                        assert(d.subrange(p0, before) + d.subrange(before, self.pos())
                            =~= d.subrange(p0, self.pos()));
                        assert(out@ =~= old(out)@ + d.subrange(p0, self.pos()));
                    }
                },
                Err(e) => {
                    self.state = MPhase::Done;
                    return Err(e);
                },
            }
        }
    }

    /// Release the next stretch of the current file entry's payload into
    /// `out`. `Ok(true)` means the payload is complete; the machine then
    /// stands at the boundary again. After `Ok(false)` more remains.
    pub fn read_payload_chunk(&mut self, out: &mut Vec<u8>) -> (r: Result<bool, MpError>)
        requires
            old(self).wf(),
            old(self).phase() is InFile,
        ensures
            final(self).wf(),
            final(self).data() == old(self).data(),
            final(self).bnd() == old(self).bnd(),
            match r {
                Ok(true) => {
                    &&& final(self).phase() is AtBoundary
                    &&& find_from(old(self).data(), old(self).bnd(), old(self).cur_part())
                        == Some(final(self).pos())
                    &&& final(out)@ == old(out)@ + old(self).data().subrange(
                        old(self).pos(),
                        strip_end(old(self).data(), old(self).bnd(), old(self).cur_part()),
                    )
                    &&& old(self).pos() <= strip_end(
                        old(self).data(),
                        old(self).bnd(),
                        old(self).cur_part(),
                    )
                },
                Ok(false) => {
                    &&& final(self).phase() is InFile
                    &&& final(self).cur_part() == old(self).cur_part()
                    &&& final(out)@ == old(out)@ + old(self).data().subrange(
                        old(self).pos(),
                        final(self).pos(),
                    )
                    &&& old(self).pos() <= final(self).pos()
                    &&& final(self).src_pos() > old(self).src_pos()
                },
                Err(MpError::Truncated) => find_from(
                    old(self).data(),
                    old(self).bnd(),
                    old(self).cur_part(),
                ) is None && final(self).phase() is Done,
                Err(MpError::Transport(_)) => final(self).phase() is Done,
                Err(_) => false,
            },
    {
        let ghost ps = self.pstart@;
        match self.reader.read_payload_chunk(Ghost(ps), out) {
            Ok(true) => {
                self.state = MPhase::AtBoundary;
                Ok(true)
            },
            Ok(false) => Ok(false),
            Err(e) => {
                self.state = MPhase::Done;
                Err(e)
            },
        }
    }

    /// Read the next entry from an owned machine, handing both back.
    pub fn into_entry(self) -> (r: (Self, Result<Option<MultipartField>, MpError>))
        requires
            self.wf(),
        ensures
            entry_post(self, r.0, r.1),
    {
        let mut m = self;
        let res = m.read_entry();
        (m, res)
    }

    /// If the request is a multipart POST, wrap its body in a parser made
    /// with its boundary token; otherwise hand the request back untouched.
    pub fn from_request<R: HttpRequest<Body = S>>(req: R) -> (r: Result<Multipart<S>, R>)
        ensures
            match r {
                Ok(m) => {
                    &&& req.boundary_spec() is Some
                    &&& m.wf()
                    &&& m.phase() is AtBoundary
                    &&& m.data() == req.body_data()
                    &&& m.bnd() == boundary_marker(req.boundary_spec()->Some_0)
                },
                Err(orig) => orig == req && req.boundary_spec() is None,
            },
    {
        match req.multipart_boundary() {
            Some(b) => Ok(Multipart::with_body(req.body(), b.as_str())),
            None => Err(req),
        }
    }
}

} // verus!
