//! The save builder: drives the entry machine to its end, materializing
//! text fields into a name-to-value list and file fields into in-memory
//! saved files, under a field-count limit, a per-file size limit and a
//! list of field names to skip. The outcome is three-way: everything
//! materialized so far is kept in every branch.

use rand::Rng;
use vstd::prelude::*;

use crate::boundary::payload_of;
use crate::error::MpError;
use crate::field::{ErrKind, FieldModel, Multipart, MultipartField, err_kind, next_entry_spec,
    EntryStep};
use crate::pattern::find_from;
use crate::source::ByteSource;

verus! {

/// One materialized file field: the client's metadata, a generated
/// collision-avoiding storage name, and the payload bytes.
pub struct SavedField {
    /// The client-supplied file name, if any.
    pub filename: Option<String>,
    /// The part's content type (or its default).
    pub content_type: String,
    /// A random name under which host glue may store the bytes on disk;
    /// never derived from the client's file name.
    pub stored_name: String,
    /// The payload.
    pub data: Vec<u8>,
}

/// Everything a save run materialized: text fields and saved files, each
/// in order of arrival.
pub struct Entries {
    /// Field name and text value of every data entry.
    pub fields: Vec<(String, String)>,
    /// Field name and saved file of every file entry.
    pub files: Vec<(String, SavedField)>,
}

/// Why a save run stopped early without failing.
pub enum PartialReason {
    /// The field-count limit was reached before this entry.
    FieldLimit,
    /// The named field's payload exceeded the per-file size limit.
    SizeLimit(String),
}

/// The three-way outcome of a save run.
pub enum SaveResult {
    /// Every entry was processed.
    Full(Entries),
    /// A limit stopped the run; what was materialized before is kept.
    Partial(Entries, PartialReason),
    /// An I/O or structural failure stopped the run; what was
    /// materialized before is kept.
    Error(Entries, MpError),
}

/// Why the model stopped early.
pub enum WhyPartial {
    WFieldLimit,
    WSizeLimit(Seq<char>),
}

/// The model of a save run's outcome.
pub enum SaveModel {
    MFull(Seq<FieldModel>),
    MPartial(Seq<FieldModel>, WhyPartial),
    MError(Seq<FieldModel>, ErrKind),
}

/// The entry `m` prepended to an outcome's materialized entries.
pub open spec fn push_front(m: FieldModel, sm: SaveModel) -> SaveModel {
    match sm {
        SaveModel::MFull(s) => SaveModel::MFull(seq![m] + s),
        SaveModel::MPartial(s, w) => SaveModel::MPartial(seq![m] + s, w),
        SaveModel::MError(s, k) => SaveModel::MError(seq![m] + s, k),
    }
}

/// A sequence of already-materialized entries prepended to an outcome.
pub open spec fn prepend_all(ms: Seq<FieldModel>, sm: SaveModel) -> SaveModel {
    match sm {
        SaveModel::MFull(s) => SaveModel::MFull(ms + s),
        SaveModel::MPartial(s, w) => SaveModel::MPartial(ms + s, w),
        SaveModel::MError(s, k) => SaveModel::MError(ms + s, k),
    }
}

/// One count fewer, where a count is set.
pub open spec fn dec_count(c: Option<int>) -> Option<int> {
    match c {
        Option::Some(x) => Option::Some(x - 1),
        Option::None => Option::None,
    }
}

/// The meaning of a save run from position `pos`: process entries in
/// order; skipped names are drained and not counted; the count limit stops
/// the run before an entry, the size limit stops it at an oversized file.
pub open spec fn save_spec(
    d: Seq<u8>,
    bnd: Seq<u8>,
    pos: int,
    count_left: Option<int>,
    size_limit: Option<int>,
    skip: Seq<Seq<char>>,
) -> SaveModel
    decreases d.len() - pos when 0 <= pos && bnd.len() >= 1 via save_spec_dec
{
    match next_entry_spec(d, bnd, pos) {
        EntryStep::Finished(_) => SaveModel::MFull(Seq::empty()),
        EntryStep::Failed(k) => SaveModel::MError(Seq::empty(), k),
        EntryStep::Next(m, body) => {
            if !skip.contains(m.name) && (count_left matches Option::Some(c) && c <= 0) {
                SaveModel::MPartial(Seq::empty(), WhyPartial::WFieldLimit)
            } else {
                match find_from(d, bnd, body) {
                    Option::None => SaveModel::MError(Seq::empty(), ErrKind::KTruncated),
                    Option::Some(b) => {
                        if skip.contains(m.name) {
                            save_spec(d, bnd, b, count_left, size_limit, skip)
                        } else if m.is_file && (size_limit matches Option::Some(l)
                            && m.content.len() > l) {
                            SaveModel::MPartial(Seq::empty(), WhyPartial::WSizeLimit(m.name))
                        } else {
                            push_front(
                                m,
                                save_spec(d, bnd, b, dec_count(count_left), size_limit, skip),
                            )
                        }
                    },
                }
            }
        },
    }
}

#[via_fn]
proof fn save_spec_dec(
    d: Seq<u8>,
    bnd: Seq<u8>,
    pos: int,
    count_left: Option<int>,
    size_limit: Option<int>,
    skip: Seq<Seq<char>>,
) {
    lemma_entry_advances(d, bnd, pos);
}

/// Every successful entry step moves forward, and the position after its
/// payload stays inside the stream.
pub proof fn lemma_entry_advances(d: Seq<u8>, bnd: Seq<u8>, pos: int)
    requires
        0 <= pos,
        bnd.len() >= 1,
    ensures
        match next_entry_spec(d, bnd, pos) {
            EntryStep::Next(m, body) => pos < body <= d.len() && (match find_from(d, bnd, body) {
                Option::Some(b) => body <= b && b <= d.len(),
                Option::None => true,
            }),
            EntryStep::Finished(p) => pos < p <= d.len(),
            EntryStep::Failed(_) => true,
        },
{
    crate::pattern::lemma_find_from_spec(d, bnd, pos);
    if let Option::Some(bb) = find_from(d, bnd, pos) {
        let a = bb + bnd.len();
        if a + 2 <= d.len() && !(d[a] == 45 && d[a + 1] == 45) && d[a] == 13 && d[a + 1]
            == 10 {
            let p = a + 2;
            crate::pattern::lemma_find_from_spec(d, crate::boundary::crlf_crlf(), p);
            if let Option::Some(bs) = crate::boundary::header_split(d, p) {
                crate::pattern::lemma_find_from_spec(d, bnd, bs.1);
            }
        }
    }
}

/// An ASCII letter or digit: the only characters a generated storage
/// name may hold, so it is never the client's file name and holds no path
/// separator.
pub open spec fn is_storage_char(c: char) -> bool {
    (48 <= c as u32 && c as u32 <= 57) || (65 <= c as u32 && c as u32 <= 90) || (97 <= c as u32
        && c as u32 <= 122)
}

/// The file metadata and bytes a saved field must carry for the model
/// entry `m`; its storage name is sixteen ASCII alphanumerics.
pub open spec fn saved_matches(sf: SavedField, m: FieldModel) -> bool {
    &&& match (sf.filename, m.filename) {
        (Option::Some(f), Option::Some(mf)) => f@ == mf,
        (Option::None, Option::None) => true,
        _ => false,
    }
    &&& sf.content_type@ == m.content_type
    &&& sf.data@ == m.content
    &&& sf.stored_name@.len() == 16
    &&& forall|i: int| 0 <= i < sf.stored_name@.len() ==> is_storage_char(#[trigger] sf.stored_name@[i])
}

/// The data entries of `ms`, as name and decoded value, in order.
pub open spec fn fields_of(ms: Seq<FieldModel>) -> Seq<(Seq<char>, Seq<char>)>
    decreases ms.len(),
{
    if ms.len() == 0 {
        Seq::empty()
    } else {
        fields_of(ms.drop_last()) + if ms.last().is_file {
            Seq::empty()
        } else {
            seq![(ms.last().name, vstd::utf8::decode_utf8(ms.last().content))]
        }
    }
}

/// The file entries of `ms`, in order.
pub open spec fn files_of(ms: Seq<FieldModel>) -> Seq<FieldModel>
    decreases ms.len(),
{
    if ms.len() == 0 {
        Seq::empty()
    } else {
        files_of(ms.drop_last()) + if ms.last().is_file {
            seq![ms.last()]
        } else {
            Seq::empty()
        }
    }
}

/// The text mapping carries exactly these names and values, in order.
pub open spec fn fields_entries_match(
    fv: Seq<(String, String)>,
    ps: Seq<(Seq<char>, Seq<char>)>,
) -> bool {
    &&& fv.len() == ps.len()
    &&& forall|i: int|
        0 <= i < ps.len() ==> (#[trigger] fv[i]).0@ == ps[i].0 && fv[i].1@ == ps[i].1
}

/// The file mapping carries exactly these entries, in order.
pub open spec fn files_entries_match(fv: Seq<(String, SavedField)>, ms: Seq<FieldModel>) -> bool {
    &&& fv.len() == ms.len()
    &&& forall|i: int|
        0 <= i < ms.len() ==> (#[trigger] fv[i]).0@ == ms[i].name && saved_matches(
            fv[i].1,
            ms[i],
        )
}

/// The materialized entries are exactly the model's.
pub open spec fn entries_match(e: Entries, ms: Seq<FieldModel>) -> bool {
    &&& fields_entries_match(e.fields@, fields_of(ms))
    &&& files_entries_match(e.files@, files_of(ms))
}

/// The reported reason is the model's.
pub open spec fn reason_matches(r: PartialReason, w: WhyPartial) -> bool {
    match (r, w) {
        (PartialReason::FieldLimit, WhyPartial::WFieldLimit) => true,
        (PartialReason::SizeLimit(f), WhyPartial::WSizeLimit(n)) => f@ == n,
        _ => false,
    }
}

/// The returned outcome is the model's, entry for entry. A transport
/// failure may end the run at any point, with what was materialized so
/// far.
pub open spec fn save_post(r: SaveResult, sm: SaveModel) -> bool {
    match r {
        SaveResult::Full(e) => sm matches SaveModel::MFull(ms) && entries_match(e, ms),
        SaveResult::Partial(e, why) => sm matches SaveModel::MPartial(ms, w)
            && entries_match(e, ms) && reason_matches(why, w),
        SaveResult::Error(e, err) => match err {
            MpError::Transport(_) => exists|n: int|
                0 <= n <= save_model_seq(sm).len() && entries_match(
                    e,
                    #[trigger] save_model_seq(sm).subrange(0, n),
                ),
            _ => sm matches SaveModel::MError(ms, k) && entries_match(e, ms) && err_kind(err)
                == k,
        },
    }
}

/// An optional exec count as a model count.
pub open spec fn opt_int(c: Option<usize>) -> Option<int> {
    match c {
        Option::Some(x) => Option::Some(x as int),
        Option::None => Option::None,
    }
}

/// Relies on rand::thread_rng / Rng::sample_iter with the Alphanumeric
/// distribution: each sample is an ASCII letter or digit, and `take(len)`
/// yields exactly `len` of them.
#[verifier::external_body]
fn random_alphanumeric(len: usize) -> (r: String)
    ensures
        r@.len() == len as nat,
        forall|i: int|
            0 <= i < r@.len() ==> ((48 <= #[trigger] r@[i] as u32 && r@[i] as u32 <= 57) || (65
                <= r@[i] as u32 && r@[i] as u32 <= 90) || (97 <= r@[i] as u32 && r@[i] as u32
                <= 122)),
{
    rand::thread_rng()
        .sample_iter(&rand::distributions::Alphanumeric)
        .take(len)
        .map(|c| c as char)
        .collect()
}

/// Whether `name` is one of the names in `skip`.
fn name_in(skip: &Vec<String>, name: &String) -> (r: bool)
    ensures
        r == skip.deep_view().contains(name@),
{
    let ghost dv = skip.deep_view();
    let mut i: usize = 0;
    while i < skip.len()
        invariant
            dv == skip.deep_view(),
            dv.len() == skip@.len(),
            0 <= i <= dv.len(),
            forall|m: int| 0 <= m < i ==> dv[m] != name@,
        decreases dv.len() - i,
    {
        if skip[i].eq(name) {
            proof {
                assert(dv[i as int] == name@);
            }
            return true;
        }
        i = i + 1;
    }
    false
}

/// Configuration for a save run: a field-count limit, a per-file size
/// limit, and field names to skip.
pub struct SaveBuilder {
    count_limit: Option<usize>,
    size_limit: Option<usize>,
    skip: Vec<String>,
}

impl SaveBuilder {
    /// The configured field-count limit.
    pub closed spec fn count_spec(&self) -> Option<int> {
        opt_int(self.count_limit)
    }

    /// The configured per-file size limit.
    pub closed spec fn size_spec(&self) -> Option<int> {
        opt_int(self.size_limit)
    }

    /// The configured names to skip.
    pub closed spec fn skip_spec(&self) -> Seq<Seq<char>> {
        self.skip.deep_view()
    }

    /// No limits, nothing skipped.
    pub fn new() -> (r: SaveBuilder)
        ensures
            r.count_spec() is None,
            r.size_spec() is None,
            r.skip_spec() == Seq::<Seq<char>>::empty(),
    {
        let r = SaveBuilder { count_limit: None, size_limit: None, skip: Vec::new() };
        proof {
            assert(r.skip.deep_view() =~= Seq::<Seq<char>>::empty());
        }
        r
    }

    /// Stop with a partial outcome once `n` entries were materialized.
    pub fn count_limit(self, n: usize) -> (r: SaveBuilder)
        ensures
            r.count_spec() == Option::Some(n as int),
            r.size_spec() == self.size_spec(),
            r.skip_spec() == self.skip_spec(),
    {
        SaveBuilder { count_limit: Some(n), ..self }
    }

    /// Stop with a partial outcome at a file payload of more than `n`
    /// bytes.
    pub fn size_limit(self, n: usize) -> (r: SaveBuilder)
        ensures
            r.size_spec() == Option::Some(n as int),
            r.count_spec() == self.count_spec(),
            r.skip_spec() == self.skip_spec(),
    {
        SaveBuilder { size_limit: Some(n), ..self }
    }

    /// Drain and drop every entry with this field name.
    pub fn skip_field(self, name: String) -> (r: SaveBuilder)
        ensures
            r.skip_spec() == self.skip_spec().push(name@),
            r.count_spec() == self.count_spec(),
            r.size_spec() == self.size_spec(),
    {
        let mut s = self;
        s.skip.push(name);
        proof {
            assert(s.skip.deep_view() =~~= old_skip_view(self) + seq![name@]);
            assert(old_skip_view(self).push(name@) =~~= old_skip_view(self) + seq![name@]);
        }
        s
    }

    /// Drive the machine to its end, materializing entries under the
    /// configured limits.
    pub fn save_all<S: ByteSource>(&self, mp: &mut Multipart<S>) -> (r: SaveResult)
        requires
            old(mp).wf(),
            old(mp).phase() is AtBoundary,
        ensures
            final(mp).wf(),
            final(mp).data() == old(mp).data(),
            save_post(
                r,
                save_spec(
                    old(mp).data(),
                    old(mp).bnd(),
                    old(mp).pos(),
                    self.count_spec(),
                    self.size_spec(),
                    self.skip_spec(),
                ),
            ),
    {
        proof {
            mp.lemma_wf();
        }
        let ghost d = mp.data();
        let ghost bv = mp.bnd();
        let ghost p0 = mp.pos();
        let ghost cl0 = self.count_spec();
        let ghost sl = self.size_spec();
        let ghost skipv = self.skip_spec();
        let mut fields: Vec<(String, String)> = Vec::new();
        let mut files: Vec<(String, SavedField)> = Vec::new();
        let mut count_left: Option<usize> = self.count_limit;
        let ghost mut done: Seq<FieldModel> = Seq::empty();
        proof {
            assert(done + save_model_seq(save_spec(d, bv, p0, cl0, sl, skipv)) =~= save_model_seq(
                save_spec(d, bv, p0, cl0, sl, skipv),
            ));
        }
        loop
            invariant
                mp.wf(),
                mp.phase() is AtBoundary,
                mp.data() == d,
                mp.bnd() == bv,
                d == old(mp).data(),
                bv == old(mp).bnd(),
                p0 == old(mp).pos(),
                0 <= p0,
                bv.len() >= 2,
                cl0 == self.count_spec(),
                sl == self.size_spec(),
                skipv == self.skip_spec(),
                skipv == self.skip.deep_view(),
                sl == opt_int(self.size_limit),
                save_spec(d, bv, p0, cl0, sl, skipv) == prepend_all(
                    done,
                    save_spec(d, bv, mp.pos(), opt_int(count_left), sl, skipv),
                ),
                fields_entries_match(fields@, fields_of(done)),
                files_entries_match(files@, files_of(done)),
            decreases d.len() - mp.pos(),
        {
            proof {
                mp.lemma_wf();
            }
            let ghost pos = mp.pos();
            let ghost cl = opt_int(count_left);
            match mp.read_entry() {
                Err(e) => {
                    proof {
                        let sm = save_spec(d, bv, p0, cl0, sl, skipv);
                        assert(save_model_seq(sm) =~= done + save_model_seq(
                            save_spec(d, bv, pos, cl, sl, skipv),
                        ));
                        assert(save_model_seq(sm).subrange(0, done.len() as int) =~= done);
                        assert(entries_match(
                            Entries { fields: fields, files: files },
                            save_model_seq(sm).subrange(0, done.len() as int),
                        ));
                    }
                    return SaveResult::Error(Entries { fields, files }, e);
                },
                Ok(None) => {
                    proof {
                        assert(done + Seq::<FieldModel>::empty() =~= done);
                    }
                    return SaveResult::Full(Entries { fields, files });
                },
                Ok(Some(field)) => {
                    proof {
                        mp.lemma_wf();
                        lemma_entry_advances(d, bv, pos);
                    }
                    let ghost m = next_entry_spec(d, bv, pos)->Next_0;
                    let ghost body = next_entry_spec(d, bv, pos)->Next_1;
                    match field {
                        MultipartField::Data { name, value } => {
                            if name_in(&self.skip, &name) {
                            } else {
                                match count_left {
                                    Some(c) => {
                                        if c == 0 {
                                            proof {
                                                assert(done
                                                    + Seq::<FieldModel>::empty() =~= done);
                                            }
                                            return SaveResult::Partial(
                                                Entries { fields, files },
                                                PartialReason::FieldLimit,
                                            );
                                        }
                                        count_left = Some(c - 1);
                                    },
                                    None => (),
                                }
                                fields.push((name, value));
                                proof {
                                    lemma_push_front_shift(done, m, save_spec(d, bv, mp.pos(),
                                        opt_int(count_left), sl, skipv));
                                    lemma_collect_push(done, m);
                                    done = done.push(m);
                                }
                            }
                        },
                        MultipartField::File { name, filename, content_type } => {
                            let skip_this = name_in(&self.skip, &name);
                            if !skip_this {
                                match count_left {
                                    Some(c) => {
                                        if c == 0 {
                                            proof {
                                                assert(done
                                                    + Seq::<FieldModel>::empty() =~= done);
                                            }
                                            return SaveResult::Partial(
                                                Entries { fields, files },
                                                PartialReason::FieldLimit,
                                            );
                                        }
                                    },
                                    None => (),
                                }
                            }
                            let mut data: Vec<u8> = Vec::new();
                            match mp.drain_payload(&mut data) {
                                Ok(()) => (),
                                Err(e) => {
                                    proof {
                                        assert(done + Seq::<FieldModel>::empty() =~= done);
                                        let sm = save_spec(d, bv, p0, cl0, sl, skipv);
                                        assert(save_model_seq(sm) =~= done + save_model_seq(
                                            save_spec(d, bv, pos, cl, sl, skipv),
                                        ));
                                        assert(save_model_seq(sm).subrange(
                                            0,
                                            done.len() as int,
                                        ) =~= done);
                                        assert(entries_match(
                                            Entries { fields: fields, files: files },
                                            save_model_seq(sm).subrange(0, done.len() as int),
                                        ));
                                    }
                                    return SaveResult::Error(Entries { fields, files }, e);
                                },
                            }
                            proof {
                                assert(data@ =~= payload_of(d, bv, body));
                            }
                            if skip_this {
                            } else {
                                let over = match self.size_limit {
                                    Some(l) => data.len() > l,
                                    None => false,
                                };
                                if over {
                                    proof {
                                        assert(done + Seq::<FieldModel>::empty() =~= done);
                                    }
                                    return SaveResult::Partial(
                                        Entries { fields, files },
                                        PartialReason::SizeLimit(name),
                                    );
                                }
                                match count_left {
                                    Some(c) => {
                                        count_left = Some(c - 1);
                                    },
                                    None => (),
                                }
                                let stored_name = random_alphanumeric(16);
                                files.push(
                                    (
                                        name,
                                        SavedField { filename, content_type, stored_name, data },
                                    ),
                                );
                                proof {
                                    lemma_push_front_shift(done, m, save_spec(d, bv, mp.pos(),
                                        opt_int(count_left), sl, skipv));
                                    lemma_collect_push(done, m);
                                    done = done.push(m);
                                }
                            }
                        },
                    }
                },
            }
        }
    }
}

/// Ghost view of a builder's skip list before a change.
pub open spec fn old_skip_view(b: SaveBuilder) -> Seq<Seq<char>> {
    b.skip_spec()
}

/// The materialized entries of an outcome.
pub open spec fn save_model_seq(sm: SaveModel) -> Seq<FieldModel> {
    match sm {
        SaveModel::MFull(s) => s,
        SaveModel::MPartial(s, _) => s,
        SaveModel::MError(s, _) => s,
    }
}

/// Prepending one more entry associates with accumulating it.
proof fn lemma_push_front_shift(done: Seq<FieldModel>, m: FieldModel, sm: SaveModel)
    ensures
        prepend_all(done, push_front(m, sm)) == prepend_all(done.push(m), sm),
{
    match sm {
        SaveModel::MFull(s) => {
            assert(done + (seq![m] + s) =~= done.push(m) + s);
        },
        SaveModel::MPartial(s, _) => {
            assert(done + (seq![m] + s) =~= done.push(m) + s);
        },
        SaveModel::MError(s, _) => {
            assert(done + (seq![m] + s) =~= done.push(m) + s);
        },
    }
}

/// Collecting one more model entry extends the two projections at the
/// end.
proof fn lemma_collect_push(done: Seq<FieldModel>, m: FieldModel)
    ensures
        fields_of(done.push(m)) == fields_of(done) + (if m.is_file {
            Seq::<(Seq<char>, Seq<char>)>::empty()
        } else {
            seq![(m.name, vstd::utf8::decode_utf8(m.content))]
        }),
        files_of(done.push(m)) == files_of(done) + (if m.is_file {
            seq![m]
        } else {
            Seq::<FieldModel>::empty()
        }),
{
    assert(done.push(m).drop_last() =~= done);
    assert(done.push(m).last() == m);
}

impl<S: ByteSource> Multipart<S> {
    /// Materialize every entry with no limits; see [`SaveBuilder`] for
    /// configured runs.
    pub fn save(&mut self) -> (r: SaveResult)
        requires
            old(self).wf(),
            old(self).phase() is AtBoundary,
        ensures
            final(self).wf(),
            save_post(
                r,
                save_spec(
                    old(self).data(),
                    old(self).bnd(),
                    old(self).pos(),
                    Option::None,
                    Option::None,
                    Seq::empty(),
                ),
            ),
    {
        let b = SaveBuilder::new();
        b.save_all(self)
    }
}

/// The outcome of a save model with its materialized entries forgotten:
/// only which branch it is, and the reason or error kind it carries.
pub open spec fn outcome_only(sm: SaveModel) -> SaveModel {
    match sm {
        SaveModel::MFull(_) => SaveModel::MFull(Seq::empty()),
        SaveModel::MPartial(_, w) => SaveModel::MPartial(Seq::empty(), w),
        SaveModel::MError(_, k) => SaveModel::MError(Seq::empty(), k),
    }
}

/// What is left of the stream model at a machine's current state, with no
/// limits and nothing skipped: the model from the current position, from
/// the end of the current file payload, or nothing once ended.
pub open spec fn rest_model<S: ByteSource>(mp: Multipart<S>) -> SaveModel {
    match mp.phase() {
        crate::field::MPhase::AtBoundary => save_spec(
            mp.data(),
            mp.bnd(),
            mp.pos(),
            Option::None,
            Option::None,
            Seq::empty(),
        ),
        crate::field::MPhase::InFile => match find_from(mp.data(), mp.bnd(), mp.cur_part()) {
            Option::None => SaveModel::MError(Seq::empty(), ErrKind::KTruncated),
            Option::Some(b) => save_spec(
                mp.data(),
                mp.bnd(),
                b,
                Option::None,
                Option::None,
                Seq::empty(),
            ),
        },
        crate::field::MPhase::Done => SaveModel::MFull(Seq::empty()),
    }
}

/// Adding a materialized entry does not change the outcome.
proof fn lemma_outcome_push(m: FieldModel, sm: SaveModel)
    ensures
        outcome_only(push_front(m, sm)) == outcome_only(sm),
{
}

impl<S: ByteSource> Multipart<S> {
    /// Call `f` on each entry until the stream of parts ends. Starting at
    /// a boundary, the call returns `Ok(())` exactly when the stream
    /// model (no limits, nothing skipped) runs to the terminal marker,
    /// and the first error otherwise, carrying the model's failure kind
    /// (a transport failure aside).
    pub fn foreach_entry<F: Fn(MultipartField) -> ()>(&mut self, f: F) -> (r: Result<
        (),
        MpError,
    >)
        requires
            old(self).wf(),
            forall|field: MultipartField| f.requires((field,)),
        ensures
            final(self).wf(),
            final(self).data() == old(self).data(),
            final(self).bnd() == old(self).bnd(),
            match r {
                Ok(()) => final(self).phase() is Done && (old(self).phase() is AtBoundary
                    ==> save_spec(
                    old(self).data(),
                    old(self).bnd(),
                    old(self).pos(),
                    Option::None,
                    Option::None,
                    Seq::empty(),
                ) is MFull),
                Err(e) => (e matches MpError::Transport(_)) || (old(self).phase()
                    is AtBoundary ==> (match save_spec(
                    old(self).data(),
                    old(self).bnd(),
                    old(self).pos(),
                    Option::None,
                    Option::None,
                    Seq::empty(),
                ) {
                    SaveModel::MError(_, k) => err_kind(e) == k,
                    _ => false,
                })),
            },
    {
        proof {
            self.lemma_wf();
        }
        let ghost d = self.data();
        let ghost start = rest_model(*self);
        loop
            invariant
                self.wf(),
                self.data() == d,
                d == old(self).data(),
                self.bnd() == old(self).bnd(),
                self.bnd().len() >= 2,
                start == rest_model(*old(self)),
                outcome_only(rest_model(*self)) == outcome_only(start),
                forall|field: MultipartField| f.requires((field,)),
            decreases
                    d.len() - self.pos(),
                    (if self.phase() is Done {
                        0int
                    } else {
                        1int
                    }),
        {
            proof {
                self.lemma_wf();
            }
            if self.is_done() {
                return Ok(());
            }
            let ghost pre = *self;
            proof {
                pre.lemma_wf();
                if pre.phase() is InFile {
                    crate::pattern::lemma_find_from_spec(d, pre.bnd(), pre.cur_part());
                }
            }
            match self.read_entry() {
                Ok(Some(field)) => {
                    proof {
                        self.lemma_wf();
                        let ghost stepped = rest_model(*self);
                        if pre.phase() is AtBoundary {
                            lemma_foreach_step(pre, *self, Ok(Some(field)), pre.pos());
                        } else {
                            if let Option::Some(b) = find_from(d, pre.bnd(), pre.cur_part()) {
                                lemma_foreach_step(pre, *self, Ok(Some(field)), b);
                            }
                        }
                    }
                    f(field)
                },
                Ok(None) => {
                    proof {
                        if pre.phase() is AtBoundary {
                            lemma_foreach_step(pre, *self, Ok(None), pre.pos());
                        } else if pre.phase() is InFile {
                            if let Option::Some(b) = find_from(d, pre.bnd(), pre.cur_part()) {
                                lemma_foreach_step(pre, *self, Ok(None), b);
                            }
                        }
                    }
                    return Ok(());
                },
                Err(e) => {
                    proof {
                        if !(e matches MpError::Transport(_)) {
                            if pre.phase() is AtBoundary {
                                lemma_foreach_fail(pre, e, pre.pos());
                            } else if pre.phase() is InFile {
                                if let Option::Some(b) = find_from(
                                    d,
                                    pre.bnd(),
                                    pre.cur_part(),
                                ) {
                                    lemma_foreach_fail(pre, e, b);
                                }
                            }
                        }
                    }
                    return Err(e);
                },
            }
        }
    }
}

/// One successful `read_entry` step leaves the stream model's outcome
/// unchanged.
proof fn lemma_foreach_step<S: ByteSource>(
    pre: Multipart<S>,
    post: Multipart<S>,
    r: Result<Option<MultipartField>, MpError>,
    pos: int,
)
    requires
        pre.wf(),
        post.wf(),
        post.data() == pre.data(),
        post.bnd() == pre.bnd(),
        pre.bnd().len() >= 1,
        0 <= pos,
        r is Ok,
        crate::field::entry_mirrors(pre, post, r, pos),
    ensures
        outcome_only(rest_model(post)) == outcome_only(
            save_spec(pre.data(), pre.bnd(), pos, Option::None, Option::None, Seq::empty()),
        ),
{
    let d = pre.data();
    let bnd = pre.bnd();
    lemma_entry_advances(d, bnd, pos);
    let sm = save_spec(d, bnd, pos, Option::None, Option::None, Seq::empty());
    match next_entry_spec(d, bnd, pos) {
        EntryStep::Finished(_) => {
        },
        EntryStep::Next(m, body) => {
            assert(!Seq::<Seq<char>>::empty().contains(m.name));
            match find_from(d, bnd, body) {
                Option::None => {
                },
                Option::Some(b) => {
                    lemma_outcome_push(
                        m,
                        save_spec(d, bnd, b, Option::None, Option::None, Seq::empty()),
                    );
                },
            }
        },
        EntryStep::Failed(k) => {
            assert(false);
        },
    }
}

/// A failed `read_entry` step carries exactly the stream model's error
/// kind.
proof fn lemma_foreach_fail<S: ByteSource>(pre: Multipart<S>, e: MpError, pos: int)
    requires
        pre.wf(),
        pre.bnd().len() >= 1,
        0 <= pos,
        !(e matches MpError::Transport(_)),
        (match next_entry_spec(pre.data(), pre.bnd(), pos) {
            EntryStep::Failed(k) => err_kind(e) == k,
            _ => false,
        }),
    ensures
        (match save_spec(
            pre.data(),
            pre.bnd(),
            pos,
            Option::None,
            Option::None,
            Seq::empty(),
        ) {
            SaveModel::MError(_, k) => err_kind(e) == k,
            _ => false,
        }),
{
}

} // verus!
