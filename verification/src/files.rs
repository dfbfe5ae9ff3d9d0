//! The content-addressed file registry.
//!
//! File bytes live outside the library, stored once per content hash; this
//! module derives the opaque mapping id — the uploader, a UTC timestamp to
//! millisecond precision, and the ordinal within the upload batch — and
//! keeps the id-keyed mapping rows. It also renders the content-addressed
//! location of a digest.

use vstd::prelude::*;
use vstd::string::StringExecFns;
use crate::store::{FileRow, Store};
use crate::types::{UploadedFile, UploadedFileWithLocation, User};
use crate::util::{
    push_decimal, push_decimal_padded, spec_decimal, spec_decimal_padded, str_eq,
    string_from_chars,
};

verus! {

/// A UTC wall-clock instant, split into calendar and clock fields.
#[derive(Clone, Copy)]
pub struct TimeFields {
    pub year: i64,
    pub month: u32,
    pub day: u32,
    pub hour: u32,
    pub minute: u32,
    pub second: u32,
    pub nanos: u32,
}

/// The documented ranges of the fields; the nanosecond field exceeds a
/// second only to encode a leap second.
pub open spec fn time_fields_valid(t: TimeFields) -> bool {
    &&& -2147483648 <= t.year <= 2147483647
    &&& 1 <= t.month <= 12
    &&& 1 <= t.day <= 31
    &&& t.hour <= 23
    &&& t.minute <= 59
    &&& t.second <= 59
    &&& t.nanos <= 1_999_999_999
}

/// Relies on chrono's `Utc::now` with the `Datelike` and `Timelike`
/// accessors: the fields lie in their documented ranges. The values depend
/// on the wall clock, so nothing else is promised.
#[verifier::external_body]
fn now_utc_fields() -> (r: TimeFields)
    ensures
        time_fields_valid(r),
{
    let now = chrono::Utc::now();
    TimeFields {
        year: chrono::Datelike::year(&now) as i64,
        month: chrono::Datelike::month(&now),
        day: chrono::Datelike::day(&now),
        hour: chrono::Timelike::hour(&now),
        minute: chrono::Timelike::minute(&now),
        second: chrono::Timelike::second(&now),
        nanos: chrono::Timelike::nanosecond(&now),
    }
}

/// A year rendered as the sign-aware four-character zero-padded decimal.
pub open spec fn spec_year_chars(y: int) -> Seq<char> {
    if y < 0 {
        seq!['-'] + spec_decimal_padded((-y) as nat, 3)
    } else {
        spec_decimal_padded(y as nat, 4)
    }
}

/// The opaque mapping id: uploader, timestamp to the millisecond, and the
/// ordinal within the batch.
pub open spec fn spec_file_id(uid: u32, t: TimeFields, ordinal: u32) -> Seq<char> {
    seq!['u'] + spec_decimal(uid as nat) + seq!['f'] + spec_year_chars(t.year as int)
        + spec_decimal_padded(t.month as nat, 2) + spec_decimal_padded(t.day as nat, 2)
        + seq!['T'] + spec_decimal_padded(t.hour as nat, 2) + spec_decimal_padded(
        t.minute as nat,
        2,
    ) + spec_decimal_padded(t.second as nat, 2) + spec_decimal_padded(
        (t.nanos / 1_000_000) as nat,
        3,
    ) + seq!['i'] + spec_decimal(ordinal as nat)
}

/// Renders the mapping id for an uploader, an instant and a batch ordinal.
pub fn file_mapping_id(uid: u32, t: &TimeFields, ordinal: u32) -> (r: String)
    requires
        time_fields_valid(*t),
    ensures
        r@ == spec_file_id(uid, *t, ordinal),
{
    let mut out: Vec<char> = Vec::new();
    out.push('u');
    push_decimal(&mut out, uid as u64);
    out.push('f');
    if t.year < 0 {
        out.push('-');
        push_decimal_padded(&mut out, (-t.year) as u64, 3);
    } else {
        push_decimal_padded(&mut out, t.year as u64, 4);
    }
    push_decimal_padded(&mut out, t.month as u64, 2);
    push_decimal_padded(&mut out, t.day as u64, 2);
    out.push('T');
    push_decimal_padded(&mut out, t.hour as u64, 2);
    push_decimal_padded(&mut out, t.minute as u64, 2);
    push_decimal_padded(&mut out, t.second as u64, 2);
    push_decimal_padded(&mut out, (t.nanos / 1_000_000) as u64, 3);
    out.push('i');
    push_decimal(&mut out, ordinal as u64);
    proof {
        assert(out@ =~= spec_file_id(uid, *t, ordinal));
    }
    string_from_chars(&out)
}


/// Two files of one batch sharing an instant but with distinct ordinals
/// get distinct mapping ids: the id embeds the ordinal after its final
/// separator, and the decimal rendering is injective.
pub proof fn lemma_file_ids_distinct_ordinals(uid: u32, t: TimeFields, i: u32, j: u32)
    requires
        i != j,
    ensures
        spec_file_id(uid, t, i) != spec_file_id(uid, t, j),
{
    let a = spec_file_id(uid, t, i);
    let b = spec_file_id(uid, t, j);
    let prefix = seq!['u'] + spec_decimal(uid as nat) + seq!['f'] + spec_year_chars(t.year as int)
        + spec_decimal_padded(t.month as nat, 2) + spec_decimal_padded(t.day as nat, 2)
        + seq!['T'] + spec_decimal_padded(t.hour as nat, 2) + spec_decimal_padded(
        t.minute as nat,
        2,
    ) + spec_decimal_padded(t.second as nat, 2) + spec_decimal_padded(
        (t.nanos / 1_000_000) as nat,
        3,
    ) + seq!['i'];
    assert(a =~= prefix + spec_decimal(i as nat));
    assert(b =~= prefix + spec_decimal(j as nat));
    if a == b {
        assert(spec_decimal(i as nat).len() == spec_decimal(j as nat).len());
        assert(spec_decimal(i as nat) =~= a.skip(prefix.len() as int));
        assert(spec_decimal(j as nat) =~= b.skip(prefix.len() as int));
        crate::util::lemma_spec_decimal_injective(i as nat, j as nat);
        assert(false);
    }
}

/// The position of the mapping row keyed by `id`.
pub open spec fn file_idx(s: Seq<FileRow>, id: Seq<char>) -> Option<int>
    decreases s.len(),
{
    if s.len() == 0 {
        None
    } else if s[0].id@ == id {
        Some(0)
    } else {
        match file_idx(s.drop_first(), id) {
            Some(i) => Some(i + 1),
            None => None,
        }
    }
}

pub proof fn lemma_file_idx(s: Seq<FileRow>, id: Seq<char>)
    ensures
        match file_idx(s, id) {
            Some(i) => 0 <= i < s.len() && s[i].id@ == id && forall|k: int|
                0 <= k < i ==> (#[trigger] s[k]).id@ != id,
            None => forall|k: int| 0 <= k < s.len() ==> (#[trigger] s[k]).id@ != id,
        },
    decreases s.len(),
{
    if s.len() > 0 && s[0].id@ != id {
        let d = s.drop_first();
        lemma_file_idx(d, id);
        assert(forall|k: int| 0 <= k < d.len() ==> d[k] == #[trigger] s[k + 1]);
        match file_idx(d, id) {
            Some(i) => {
                assert(d[i] == s[i + 1]);
                assert forall|k: int| 0 <= k < i + 1 implies (#[trigger] s[k]).id@ != id by {
                    if k > 0 {
                        assert(d[k - 1].id@ != id);
                    }
                }
            },
            None => {
                assert forall|k: int| 0 <= k < s.len() implies (#[trigger] s[k]).id@ != id by {
                    if k > 0 {
                        assert(d[k - 1].id@ != id);
                    }
                }
            },
        }
    }
}

pub(crate) fn find_file(v: &Vec<FileRow>, id: &str) -> (r: Option<usize>)
    ensures
        match r {
            Some(i) => i < v@.len() && file_idx(v@, id@) == Some(i as int),
            None => file_idx(v@, id@) is None,
        },
{
    let mut i: usize = 0;
    while i < v.len()
        invariant
            i <= v@.len(),
            forall|k: int| 0 <= k < i ==> (#[trigger] v@[k]).id@ != id@,
        decreases v@.len() - i,
    {
        if str_eq(v[i].id.as_str(), id) {
            proof {
                lemma_file_idx(v@, id@);
            }
            return Some(i);
        }
        i = i + 1;
    }
    proof {
        lemma_file_idx(v@, id@);
    }
    None
}

/// Every table of `b` except the file mappings equals `a`'s.
pub open spec fn same_but_files(a: Store, b: Store) -> bool {
    &&& a.sections@ == b.sections@
    &&& a.subsections@ == b.subsections@
    &&& a.threads@ == b.threads@
    &&& a.messages@ == b.messages@
    &&& a.articles@ == b.articles@
    &&& a.comments@ == b.comments@
    &&& a.favorites@ == b.favorites@
    &&& a.users@ == b.users@
}

/// Registers an upload at a given instant: the deterministic half of
/// `save_file_mapping`, taking the clock reading as an argument. The row is
/// keyed by the derived id; saving an existing id replaces the row.
pub fn save_file_mapping_at(
    store: &mut Store,
    file_name: &str,
    mime: &str,
    orig_file_name: &str,
    user: &User,
    i: u32,
    t: &TimeFields,
) -> (r: String)
    requires
        old(store).wf(),
        time_fields_valid(*t),
    ensures
        final(store).wf(),
        r@ == spec_file_id(user.id, *t, i),
        same_but_files(*old(store), *final(store)),
        ({
            let row_ok = {
                let j = match file_idx(old(store).files@, r@) {
                    Some(j) => j,
                    None => final(store).files@.len() - 1,
                };
                let row = final(store).files@[j];
                &&& row.id@ == r@
                &&& row.user_id == user.id
                &&& row.file_name@ == file_name@
                &&& row.mime@ == mime@
                &&& row.orig_file_name@ == orig_file_name@
            };
            &&& row_ok
            &&& match file_idx(old(store).files@, r@) {
                Some(j) => final(store).files@.len() == old(store).files@.len() && forall|k: int|
                    0 <= k < old(store).files@.len() && k != j ==> old(store).files@[k]
                        == #[trigger] final(store).files@[k],
                None => final(store).files@.len() == old(store).files@.len() + 1
                    && final(store).files@.drop_last() == old(store).files@,
            }
        }),
{
    let id = file_mapping_id(user.id, t, i);
    let mut fname = String::new();
    fname.append(file_name);
    let mut m = String::new();
    m.append(mime);
    let mut oname = String::new();
    oname.append(orig_file_name);
    let row = FileRow {
        id: id.clone(),
        user_id: user.id,
        file_name: fname,
        mime: m,
        orig_file_name: oname,
    };
    match find_file(&store.files, id.as_str()) {
        Some(j) => {
            store.files[j] = row;
            proof {
                lemma_file_idx(old(store).files@, id@);
                assert forall|a: int, b: int|
                    #![trigger store.files@[a], store.files@[b]]
                    0 <= a < b < store.files@.len() implies store.files@[a].id@
                    != store.files@[b].id@ by {
                    if a != j && b != j {
                        assert(store.files@[a] == old(store).files@[a]);
                        assert(store.files@[b] == old(store).files@[b]);
                    } else if a == j {
                        assert(store.files@[b] == old(store).files@[b]);
                        assert(old(store).files@[b].id@ != old(store).files@[j as int].id@);
                    } else {
                        assert(store.files@[a] == old(store).files@[a]);
                        assert(old(store).files@[a].id@ != old(store).files@[j as int].id@);
                    }
                }
            }
        },
        None => {
            proof {
                lemma_file_idx(store.files@, id@);
            }
            store.files.push(row);
            proof {
                assert(store.files@.drop_last() =~= old(store).files@);
                assert(forall|k: int|
                    0 <= k < old(store).files@.len() ==> old(store).files@[k]
                        == #[trigger] store.files@[k]);
            }
        },
    }
    id
}

/// Registers an upload now: reads the wall clock and derives the mapping id
/// from the uploader, the instant, and the ordinal within the batch. The
/// instant is whatever the clock said, so it is existentially quantified.
pub fn save_file_mapping(
    store: &mut Store,
    file_name: &str,
    mime: &str,
    orig_file_name: &str,
    user: &User,
    i: u32,
) -> (r: String)
    requires
        old(store).wf(),
    ensures
        final(store).wf(),
        same_but_files(*old(store), *final(store)),
        exists|t: TimeFields|
            time_fields_valid(t) && r@ == spec_file_id(user.id, t, i),
        ({
            let j = match file_idx(old(store).files@, r@) {
                Some(j) => j,
                None => final(store).files@.len() - 1,
            };
            let row = final(store).files@[j];
            &&& file_idx(final(store).files@, r@) == Some(j)
            &&& row.id@ == r@
            &&& row.user_id == user.id
            &&& row.file_name@ == file_name@
            &&& row.mime@ == mime@
            &&& row.orig_file_name@ == orig_file_name@
        }),
        match file_idx(old(store).files@, r@) {
            Some(j) => final(store).files@.len() == old(store).files@.len() && forall|k: int|
                0 <= k < old(store).files@.len() && k != j ==> old(store).files@[k]
                    == #[trigger] final(store).files@[k],
            None => final(store).files@.len() == old(store).files@.len() + 1
                && final(store).files@.drop_last() == old(store).files@,
        },
{
    let t = now_utc_fields();
    let id = save_file_mapping_at(store, file_name, mime, orig_file_name, user, i, &t);
    proof {
        lemma_file_idx(store.files@, id@);
        lemma_file_idx(old(store).files@, id@);
        assert(time_fields_valid(t) && id@ == spec_file_id(user.id, t, i));
        let j = match file_idx(old(store).files@, id@) {
            Some(j) => j,
            None => store.files@.len() - 1,
        };
        assert(store.files@[j].id@ == id@);
        match file_idx(store.files@, id@) {
            Some(j2) => {
                if j2 != j {
                    assert(store.files@[j2].id@ != store.files@[j].id@);
                    assert(false);
                }
            },
            None => {
                assert(false);
            },
        }
    }
    id
}

/// Resolves a mapping id to the stored content location and display
/// metadata; `None` when the id is unknown.
pub fn query_file(store: &Store, id: String) -> (r: Option<UploadedFileWithLocation>)
    ensures
        match file_idx(store.files@, id@) {
            Some(j) => {
                let row = store.files@[j];
                r matches Some(f) && f.file.id@ == id@ && f.file.file_name@
                    == row.orig_file_name@ && f.file.mime@ == row.mime@ && f.file_path@
                    == row.file_name@
            },
            None => r is None,
        },
{
    match find_file(&store.files, id.as_str()) {
        Some(j) => {
            let row = &store.files[j];
            Some(
                UploadedFileWithLocation {
                    file: UploadedFile {
                        id,
                        file_name: row.orig_file_name.clone(),
                        mime: row.mime.clone(),
                    },
                    file_path: row.file_name.clone(),
                },
            )
        },
        None => None,
    }
}

// ---------------------------------------------------------------------------
// Content-addressed locations.
// ---------------------------------------------------------------------------

/// The lower-case hex character of one digit value.
pub open spec fn hex_char_lower(d: nat) -> char {
    if d == 0 { '0' }
    else if d == 1 { '1' }
    else if d == 2 { '2' }
    else if d == 3 { '3' }
    else if d == 4 { '4' }
    else if d == 5 { '5' }
    else if d == 6 { '6' }
    else if d == 7 { '7' }
    else if d == 8 { '8' }
    else if d == 9 { '9' }
    else if d == 10 { 'a' }
    else if d == 11 { 'b' }
    else if d == 12 { 'c' }
    else if d == 13 { 'd' }
    else if d == 14 { 'e' }
    else { 'f' }
}

/// The lower-case hex encoding of a byte string: two characters per byte,
/// high digit first.
pub open spec fn spec_hex_lower(b: Seq<u8>) -> Seq<char> {
    Seq::new(
        2 * b.len(),
        |i: int|
            if i % 2 == 0 {
                hex_char_lower((b[i / 2] / 16) as nat)
            } else {
                hex_char_lower((b[i / 2] % 16) as nat)
            },
    )
}

/// Relies on `data_encoding::HEXLOWER.encode`: the canonical lower-case hex
/// encoding, two digits per byte.
#[verifier::external_body]
fn hexlower_encode(b: &[u8]) -> (r: String)
    ensures
        r@ == spec_hex_lower(b@),
{
    data_encoding::HEXLOWER.encode(b)
}

/// The flat content-addressed location of a digest: the files directory
/// plus the lower-case hex of the hash.
pub fn content_address_path(digest: &[u8]) -> (r: String)
    ensures
        r@ == "files/"@ + spec_hex_lower(digest@),
{
    let mut s = String::new();
    s.append("files/");
    let h = hexlower_encode(digest);
    s.append(h.as_str());
    s
}

} // verus!
