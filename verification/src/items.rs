//! Vault items: what a new pasted item becomes, how edits are checked, how
//! listings are paged, how an item is titled and dated, and the CSV export.
use vstd::prelude::*;

use crate::digest::{hex_of, sha256_hex, spec_sha256};
use crate::error::{is_validation, AppError, AppResult};
use crate::input::{opt_view, parse_tag_field, spec_source_url, spec_tag_field, validate_source_url};
use crate::number::{decimal, decimal_string};
use crate::storage::{
    answers, detect_text_kind, detected_kind, normalize_virtual_path, normalized_path, validate_tags,
    validated_tags, views_of,
};
use crate::text::{
    chars_of, split, split_chars, string_from, trim, trim_chars, trim_end, utf8_len,
};

verus! {

/// A pasted item as a client submits it.
pub struct ItemCreate {
    pub payload: String,
    pub kind: String,
    pub virtual_path: String,
    pub tags: Vec<String>,
    pub source_url: Option<String>,
}

/// The kind assumed when a client names none.
pub fn default_auto() -> (r: String)
    ensures
        r@ == "auto"@,
{
    String::from_str("auto")
}

/// The virtual path assumed when a client names none.
pub fn default_path() -> (r: String)
    ensures
        r@ == "/"@,
{
    String::from_str("/")
}

/// A pasted item after every check, ready to be stored.
pub struct PreparedText {
    pub payload: String,
    pub size: u64,
    pub kind: String,
    pub virtual_path: String,
    pub tags: Vec<String>,
    pub source_url: Option<String>,
    pub content_hash: String,
}

/// `s` without trailing whitespace, as `str::trim_end` gives it.
pub fn trim_end_string(s: &str) -> (r: String)
    ensures
        r@ == trim_end(s@),
{
    let v = chars_of(s);
    let mut j: usize = v.len();
    assert(v@.subrange(0, j as int) =~= v@);
    while j > 0 && crate::text::is_whitespace(v[j - 1])
        invariant
            j <= v@.len(),
            trim_end(v@) == trim_end(v@.subrange(0, j as int)),
        decreases j,
    {
        assert(v@.subrange(0, j as int).drop_last() =~= v@.subrange(0, j - 1));
        j = j - 1;
    }
    let mut out: Vec<char> = Vec::new();
    let mut k: usize = 0;
    while k < j
        invariant
            k <= j <= v@.len(),
            out@ == v@.subrange(0, k as int),
        decreases j - k,
    {
        out.push(v[k]);
        k = k + 1;
        assert(out@ =~= v@.subrange(0, k as int));
    }
    string_from(out.as_slice())
}

/// Checks a pasted item against the upload limit and the item rules. The
/// text loses its trailing whitespace; blank text is refused; its size is
/// its UTF-8 length, limited by the smaller of the workspace limit and the
/// single-request limit; the stored hash is the SHA-256 of the text.
pub fn prepare_text_item(input: ItemCreate, workspace_limit: u64, request_limit: u64) -> (r: AppResult<PreparedText>)
    ensures
        ({
            let payload = trim_end(input.payload@);
            let size = utf8_len(payload) as u64;
            let limit = if workspace_limit < request_limit { workspace_limit } else { request_limit };
            match r {
                Ok(p) => {
                    &&& trim(payload).len() > 0
                    &&& size <= limit
                    &&& p.payload@ == payload
                    &&& p.size == size
                    &&& detected_kind(payload, input.kind@) == Ok::<Seq<char>, Seq<char>>(p.kind@)
                    &&& normalized_path(input.virtual_path@, utf8_len(input.virtual_path@)) == Ok::<Seq<char>, Seq<char>>(p.virtual_path@)
                    &&& validated_tags(views_of(input.tags@)) == Ok::<Seq<Seq<char>>, Seq<char>>(views_of(p.tags@))
                    &&& spec_source_url(opt_view(input.source_url), "source_url"@) == Ok::<Option<Seq<char>>, Seq<char>>(opt_view(p.source_url))
                    &&& p.content_hash@ == hex_of(spec_sha256(vstd::utf8::encode_utf8(payload)))
                },
                Err(e) => if trim(payload).len() == 0 {
                    is_validation(e, "payload cannot be blank"@)
                } else if size > limit {
                    e == (AppError::PayloadTooLarge { received: size, limit })
                } else if detected_kind(payload, input.kind@) is Err {
                    detected_kind(payload, input.kind@) matches Err(m) && is_validation(e, m)
                } else if normalized_path(input.virtual_path@, utf8_len(input.virtual_path@)) is Err {
                    normalized_path(input.virtual_path@, utf8_len(input.virtual_path@)) matches Err(m) && is_validation(e, m)
                } else if validated_tags(views_of(input.tags@)) is Err {
                    validated_tags(views_of(input.tags@)) matches Err(m) && is_validation(e, m)
                } else {
                    spec_source_url(opt_view(input.source_url), "source_url"@) matches Err(m) && is_validation(e, m)
                },
            }
        }),
{
    let payload = trim_end_string(input.payload.as_str());
    let pc = chars_of(payload.as_str());
    let t = trim_chars(pc.as_slice());
    if t.len() == 0 {
        return Err(AppError::Validation(String::from_str("payload cannot be blank")));
    }
    let size = payload.as_str().len() as u64;
    let limit = if workspace_limit < request_limit { workspace_limit } else { request_limit };
    if size > limit {
        return Err(AppError::PayloadTooLarge { received: size, limit });
    }
    let kind = detect_text_kind(payload.as_str(), input.kind.as_str())?;
    let virtual_path = normalize_virtual_path(input.virtual_path.as_str())?;
    let tags = validate_tags(input.tags)?;
    let source_url = validate_source_url(input.source_url, "source_url")?;
    let content_hash = sha256_hex(payload.as_str().as_bytes());
    Ok(PreparedText { payload, size, kind, virtual_path, tags, source_url, content_hash })
}

} // verus!

verus! {

// ---------------------------------------------------------------------------
// Edits
// ---------------------------------------------------------------------------

/// A metadata edit as a client submits it. `source_url` distinguishes an
/// absent field (`None`) from an explicit null (`Some(None)`).
pub struct ItemPatch {
    pub virtual_path: Option<String>,
    pub tags: Option<Vec<String>>,
    pub source_url: Option<Option<String>>,
    pub pinned: Option<bool>,
}

/// An edit after its checks: each present field is normalized.
pub struct ValidatedPatch {
    pub virtual_path: Option<String>,
    pub tags: Option<Vec<String>>,
    pub set_source_url: bool,
    pub source_url: Option<String>,
    pub pinned: Option<bool>,
}

/// The source URL an edit asks for, an explicit null and an absent field
/// both counting as none.
pub open spec fn patch_source(patch: ItemPatch) -> Option<Seq<char>> {
    match patch.source_url {
        Some(Some(u)) => Some(u@),
        _ => None,
    }
}

/// Checks an edit: a given path is normalized, given tags are cleaned, and
/// the source URL is checked whether or not the field was present.
pub fn validate_patch(patch: ItemPatch) -> (r: AppResult<ValidatedPatch>)
    ensures
        match r {
            Ok(v) => {
                &&& match patch.virtual_path {
                    Some(p) => v.virtual_path matches Some(q) && normalized_path(p@, utf8_len(p@)) == Ok::<Seq<char>, Seq<char>>(q@),
                    None => v.virtual_path is None,
                }
                &&& match patch.tags {
                    Some(t) => v.tags matches Some(u) && validated_tags(views_of(t@)) == Ok::<Seq<Seq<char>>, Seq<char>>(views_of(u@)),
                    None => v.tags is None,
                }
                &&& v.set_source_url == patch.source_url is Some
                &&& spec_source_url(patch_source(patch), "source_url"@) == Ok::<Option<Seq<char>>, Seq<char>>(opt_view(v.source_url))
                &&& v.pinned == patch.pinned
            },
            Err(e) => if patch.virtual_path matches Some(p) && normalized_path(p@, utf8_len(p@)) is Err {
                patch.virtual_path matches Some(p) && normalized_path(p@, utf8_len(p@)) matches Err(m) && is_validation(e, m)
            } else if patch.tags matches Some(t) && validated_tags(views_of(t@)) is Err {
                patch.tags matches Some(t) && validated_tags(views_of(t@)) matches Err(m) && is_validation(e, m)
            } else {
                spec_source_url(patch_source(patch), "source_url"@) matches Err(m) && is_validation(e, m)
            },
        },
{
    let virtual_path = match patch.virtual_path {
        Some(p) => Some(normalize_virtual_path(p.as_str())?),
        None => None,
    };
    let tags = match patch.tags {
        Some(t) => Some(validate_tags(t)?),
        None => None,
    };
    let set_source_url = patch.source_url.is_some();
    let requested = match patch.source_url {
        Some(inner) => inner,
        None => None,
    };
    let source_url = validate_source_url(requested, "source_url")?;
    Ok(ValidatedPatch { virtual_path, tags, set_source_url, source_url, pinned: patch.pinned })
}

// ---------------------------------------------------------------------------
// Listings
// ---------------------------------------------------------------------------

/// The page size of a listing: 50 by default, kept between 1 and 200.
pub fn list_limit(requested: Option<i64>) -> (r: i64)
    ensures
        r == match requested {
            Some(n) => if n < 1 { 1 } else if n > 200 { 200 } else { n },
            None => 50,
        },
        1 <= r <= 200,
{
    let n = match requested {
        Some(n) => n,
        None => 50,
    };
    if n < 1 {
        1
    } else if n > 200 {
        200
    } else {
        n
    }
}

/// Whether a search text is used at all: blank searches are ignored.
pub fn search_text(q: Option<String>) -> (r: Option<String>)
    ensures
        opt_view(r) == match opt_view(q) {
            Some(s) => if trim(s).len() == 0 { None } else { Some(s) },
            None => None,
        },
{
    match q {
        Some(s) => {
            let c = chars_of(s.as_str());
            let t = trim_chars(c.as_slice());
            if t.len() == 0 {
                None
            } else {
                Some(s)
            }
        },
        None => None,
    }
}

/// One page of a listing fetched with one row more than `limit`: the page
/// and whether more rows follow.
pub fn page_of<T>(items: Vec<T>, limit: i64) -> (r: (Vec<T>, bool))
    requires
        1 <= limit <= 200,
    ensures
        r.1 == (items@.len() > limit),
        r.0@ == if r.1 { items@.take(limit as int) } else { items@ },
{
    let mut items = items;
    let has_more = items.len() > limit as usize;
    if has_more {
        items.truncate(limit as usize);
    }
    (items, has_more)
}

// ---------------------------------------------------------------------------
// Stored items
// ---------------------------------------------------------------------------

/// A stored item, with identifiers and times as the database renders them
/// (`created_at` as RFC 3339). `tags` holds the JSON column: `None` when it
/// is not an array, and for each element its text when it is a string.
pub struct ItemRow {
    pub id: String,
    pub organization_id: String,
    pub created_by_user_id: Option<String>,
    pub created_by_key_id: Option<String>,
    pub kind: String,
    pub text_payload: Option<String>,
    pub blob_id: Option<String>,
    pub original_filename: Option<String>,
    pub virtual_path: String,
    pub source_url: Option<String>,
    pub tags: Option<Vec<Option<String>>>,
    pub content_hash: String,
    pub size_bytes: i64,
    pub pinned: bool,
    pub created_at: String,
    pub updated_at: String,
    pub deleted_at: Option<String>,
}

/// The tags of a stored tag column: its string elements, trimmed, blanks dropped.
pub open spec fn spec_tag_list(tags: Seq<Option<Seq<char>>>) -> Seq<Seq<char>>
    decreases tags.len(),
{
    if tags.len() == 0 {
        Seq::empty()
    } else {
        let rest = spec_tag_list(tags.drop_last());
        match tags.last() {
            Some(t) => if trim(t).len() > 0 { rest.push(trim(t)) } else { rest },
            None => rest,
        }
    }
}

/// The views of a JSON tag array.
pub open spec fn json_tags_view(tags: Seq<Option<String>>) -> Seq<Option<Seq<char>>> {
    tags.map_values(|t: Option<String>| opt_view(t))
}

/// The first non-blank line of `text`, trimmed.
pub open spec fn first_line(lines: Seq<Seq<char>>) -> Option<Seq<char>>
    decreases lines.len(),
{
    if lines.len() == 0 {
        None
    } else if trim(lines[0]).len() > 0 {
        Some(trim(lines[0]))
    } else {
        first_line(lines.drop_first())
    }
}

/// The title of an item: its trimmed file name, else the first non-blank
/// line of its text cut to 72 characters (with an ellipsis when cut), else
/// `Untitled` and its kind. Lines are split at `\n`; the `\r` of a `\r\n`
/// ending is whitespace and goes with the trim.
pub open spec fn spec_display_name(filename: Option<Seq<char>>, text: Option<Seq<char>>, kind: Seq<char>) -> Seq<char> {
    if filename is Some && trim(filename->0).len() > 0 {
        trim(filename->0)
    } else if text is Some && first_line(split(text->0, '\n')) is Some {
        let line = first_line(split(text->0, '\n'))->0;
        if line.len() > 72 { line.take(72).push('\u{2026}') } else { line }
    } else {
        "Untitled "@ + kind
    }
}

/// How long ago an item was created, from the whole seconds elapsed: `just
/// now` under a minute (or in the future), then minutes, hours and days, and
/// the creation day itself from a week on.
pub open spec fn spec_age(elapsed: i64, day: Seq<char>) -> Seq<char> {
    let minutes = elapsed / 60;
    if elapsed < 60 {
        "just now"@
    } else if minutes < 60 {
        decimal(minutes as nat) + "m ago"@
    } else if elapsed / 3600 < 24 {
        decimal((elapsed / 3600) as nat) + "h ago"@
    } else if elapsed / 86400 < 7 {
        decimal((elapsed / 86400) as nat) + "d ago"@
    } else {
        day
    }
}

impl ItemRow {
    /// The item's tags, ready for display.
    pub fn tag_list(&self) -> (r: Vec<String>)
        ensures
            views_of(r@) == match self.tags {
                Some(t) => spec_tag_list(json_tags_view(t@)),
                None => Seq::empty(),
            },
    {
        let mut out: Vec<String> = Vec::new();
        match &self.tags {
            None => {
                assert(views_of(out@) =~= Seq::<Seq<char>>::empty());
                out
            },
            Some(tags) => {
                let ghost all = json_tags_view(tags@);
                let mut i: usize = 0;
                while i < tags.len()
                    invariant
                        i <= tags@.len(),
                        all == json_tags_view(tags@),
                        views_of(out@) == spec_tag_list(all.take(i as int)),
                    decreases tags@.len() - i,
                {
                    assert(all.take(i + 1).drop_last() =~= all.take(i as int));
                    assert(all.take(i + 1).last() == opt_view(tags@[i as int]));
                    match &tags[i] {
                        Some(t) => {
                            let c = chars_of(t.as_str());
                            let tc = trim_chars(c.as_slice());
                            if tc.len() > 0 {
                                let ghost before = views_of(out@);
                                out.push(string_from(tc.as_slice()));
                                assert(views_of(out@) =~= before.push(tc@));
                            }
                        },
                        None => {},
                    }
                    i = i + 1;
                }
                assert(all.take(i as int) =~= all);
                out
            },
        }
    }

    /// A short human title for the item.
    pub fn display_name(&self) -> (r: String)
        ensures
            r@ == spec_display_name(opt_view(self.original_filename), opt_view(self.text_payload), self.kind@),
    {
        match &self.original_filename {
            Some(name) => {
                let c = chars_of(name.as_str());
                let t = trim_chars(c.as_slice());
                if t.len() > 0 {
                    return string_from(t.as_slice());
                }
            },
            None => {},
        }
        match &self.text_payload {
            Some(text) => {
                let c = chars_of(text.as_str());
                let lines = split_chars(c.as_slice(), '\n');
                let ghost all = split(text@, '\n');
                let mut i: usize = 0;
                assert(all.skip(0) =~= all);
                while i < lines.len()
                    invariant
                        i <= lines@.len(),
                        all == split(text@, '\n'),
                        lines@.len() == all.len(),
                        forall|k: int| 0 <= k < lines@.len() ==> #[trigger] lines@[k]@ == all[k],
                        first_line(all) == first_line(all.skip(i as int)),
                        opt_view(self.text_payload) == Some(text@),
                        !(opt_view(self.original_filename) is Some && trim(opt_view(self.original_filename)->0).len() > 0),
                    decreases lines@.len() - i,
                {
                    assert(all.skip(i as int).drop_first() =~= all.skip(i + 1));
                    assert(all.skip(i as int)[0] == all[i as int]);
                    let t = trim_chars(lines[i].as_slice());
                    if t.len() > 0 {
                        if t.len() > 72 {
                            let mut title: Vec<char> = Vec::new();
                            let mut k: usize = 0;
                            while k < 72
                                invariant
                                    k <= 72 < t@.len(),
                                    title@ == t@.take(k as int),
                                decreases 72 - k,
                            {
                                title.push(t[k]);
                                k = k + 1;
                                assert(title@ =~= t@.take(k as int));
                            }
                            title.push('\u{2026}');
                            return string_from(title.as_slice());
                        }
                        return string_from(t.as_slice());
                    }
                    i = i + 1;
                }
                assert(all.skip(i as int) =~= Seq::<Seq<char>>::empty());
            },
            None => {},
        }
        let mut out = String::from_str("Untitled ");
        out.append(self.kind.as_str());
        out
    }

    /// A compact relative age such as `4m ago`, `6h ago`, or the creation
    /// day (`created_day`, written `12 Mar 2026`) once a week has passed.
    /// `elapsed_seconds` is the whole seconds since creation.
    pub fn age(&self, elapsed_seconds: i64, created_day: &str) -> (r: String)
        ensures
            r@ == spec_age(elapsed_seconds, created_day@),
    {
        let minutes = elapsed_seconds / 60;
        if elapsed_seconds < 60 {
            String::from_str("just now")
        } else if minutes < 60 {
            let mut s = decimal_string(minutes as u64);
            s.append("m ago");
            s
        } else if elapsed_seconds / 3600 < 24 {
            let mut s = decimal_string((elapsed_seconds / 3600) as u64);
            s.append("h ago");
            s
        } else if elapsed_seconds / 86400 < 7 {
            let mut s = decimal_string((elapsed_seconds / 86400) as u64);
            s.append("d ago");
            s
        } else {
            String::from_str(created_day)
        }
    }
}

// ---------------------------------------------------------------------------
// Export
// ---------------------------------------------------------------------------

/// The bytes the `csv` crate writes for one record (quoted where needed,
/// ended by a line break).
pub uninterp spec fn spec_csv_record(fields: Seq<Seq<char>>) -> Seq<u8>;

/// `csv::Writer::write_record` on a fresh writer over a `Vec<u8>`, then
/// `into_inner`: the bytes of one record. The writer's errors come from the
/// underlying writer, which for a `Vec` never fails, and from a field count
/// that differs from the first record's, which the first record cannot
/// have; so the bytes always come back. Records are written independently,
/// so a file is the concatenation of its records.
#[verifier::external_body]
fn csv_record(fields: &Vec<String>) -> (r: Option<Vec<u8>>)
    ensures
        r is Some,
        r matches Some(b) ==> b@ == spec_csv_record(views_of(fields@)),
{
    let mut writer = csv::Writer::from_writer(Vec::new());
    if writer.write_record(fields).is_err() {
        return None;
    }
    match writer.into_inner() {
        Ok(bytes) => Some(bytes),
        Err(_) => None,
    }
}

/// The header row of the CSV export.
pub open spec fn csv_header() -> Seq<Seq<char>> {
    seq!["id"@, "type"@, "filename"@, "virtual_path"@, "size_bytes"@, "created_at"@, "payload"@]
}

/// The CSV row of an item.
pub open spec fn csv_row(item: ItemRow) -> Seq<Seq<char>> {
    seq![
        item.id@,
        item.kind@,
        match opt_view(item.original_filename) { Some(f) => f, None => Seq::empty() },
        item.virtual_path@,
        crate::number::signed_decimal(item.size_bytes as int),
        item.created_at@,
        match opt_view(item.text_payload) { Some(t) => t, None => Seq::empty() },
    ]
}

/// The CSV export of `items`: the header record, then one record per item.
pub open spec fn spec_csv_export(items: Seq<ItemRow>) -> Seq<u8>
    decreases items.len(),
{
    if items.len() == 0 {
        spec_csv_record(csv_header())
    } else {
        spec_csv_export(items.drop_last()) + spec_csv_record(csv_row(items.last()))
    }
}

/// Writes item metadata and text as CSV; this always succeeds.
pub fn export_csv(items: &Vec<ItemRow>) -> (r: AppResult<Vec<u8>>)
    ensures
        r is Ok,
        r matches Ok(b) ==> b@ == spec_csv_export(items@),
{
    let header: Vec<String> = vec![
        String::from_str("id"),
        String::from_str("type"),
        String::from_str("filename"),
        String::from_str("virtual_path"),
        String::from_str("size_bytes"),
        String::from_str("created_at"),
        String::from_str("payload"),
    ];
    assert(views_of(header@) =~= csv_header());
    let mut out = csv_record(&header).unwrap();
    let mut i: usize = 0;
    while i < items.len()
        invariant
            i <= items@.len(),
            out@ == spec_csv_export(items@.take(i as int)),
        decreases items@.len() - i,
    {
        assert(items@.take(i + 1).drop_last() =~= items@.take(i as int));
        let item = &items[i];
        let row: Vec<String> = vec![
            item.id.clone(),
            item.kind.clone(),
            match &item.original_filename {
                Some(f) => f.clone(),
                None => String::new(),
            },
            item.virtual_path.clone(),
            crate::number::signed_decimal_string(item.size_bytes),
            item.created_at.clone(),
            match &item.text_payload {
                Some(t) => t.clone(),
                None => String::new(),
            },
        ];
        assert(views_of(row@) =~= csv_row(items@[i as int]));
        let bytes = csv_record(&row).unwrap();
        let mut k: usize = 0;
        let ghost before = out@;
        while k < bytes.len()
            invariant
                k <= bytes@.len(),
                out@ == before + bytes@.take(k as int),
            decreases bytes@.len() - k,
        {
            out.push(bytes[k]);
            k = k + 1;
            assert(out@ =~= before + bytes@.take(k as int));
        }
        assert(bytes@.take(k as int) =~= bytes@);
        i = i + 1;
    }
    assert(items@.take(i as int) =~= items@);
    Ok(out)
}

} // verus!

verus! {

// ---------------------------------------------------------------------------
// File items sent as multipart forms
// ---------------------------------------------------------------------------

/// The parts of a multipart item upload that the server reads.
#[derive(PartialEq, Eq, Structural)]
pub enum UploadField {
    File,
    VirtualPath,
    Tags,
    SourceUrl,
    Other,
}

/// Which part a multipart field named `name` is: `file`, the path (named
/// `virtual_path` or `path`), `tags`, `source_url`, or another one, which
/// is ignored.
pub open spec fn spec_upload_field(name: Seq<char>) -> UploadField {
    if name == "file"@ {
        UploadField::File
    } else if name == "virtual_path"@ || name == "path"@ {
        UploadField::VirtualPath
    } else if name == "tags"@ {
        UploadField::Tags
    } else if name == "source_url"@ {
        UploadField::SourceUrl
    } else {
        UploadField::Other
    }
}

/// Classifies a multipart field by its name (empty when it has none).
pub fn upload_field(name: &str) -> (r: UploadField)
    ensures
        r == spec_upload_field(name@),
{
    let c = chars_of(name);
    if crate::text::eq_lit(c.as_slice(), "file") {
        UploadField::File
    } else if crate::text::eq_lit(c.as_slice(), "virtual_path") || crate::text::eq_lit(c.as_slice(), "path") {
        UploadField::VirtualPath
    } else if crate::text::eq_lit(c.as_slice(), "tags") {
        UploadField::Tags
    } else if crate::text::eq_lit(c.as_slice(), "source_url") {
        UploadField::SourceUrl
    } else {
        UploadField::Other
    }
}

/// What a multipart item upload has said so far: whether its file came,
/// and the last path, tags and source URL it gave.
pub struct FileItemFields {
    pub has_file: bool,
    pub virtual_path: String,
    pub tags: Vec<String>,
    pub source_url: Option<String>,
}

/// The fields of a file item after every check.
pub struct CheckedFileFields {
    pub virtual_path: String,
    pub tags: Vec<String>,
    pub source_url: Option<String>,
}

impl FileItemFields {
    /// Nothing received yet: no file, the root path, no tags, no source.
    pub fn new() -> (r: FileItemFields)
        ensures
            !r.has_file,
            r.virtual_path@ == "/"@,
            r.tags@.len() == 0,
            r.source_url is None,
    {
        FileItemFields { has_file: false, virtual_path: String::from_str("/"), tags: Vec::new(), source_url: None }
    }

    /// A `file` part arrives; a request may carry only one.
    pub fn accept_file(&mut self) -> (r: AppResult<()>)
        ensures
            match r {
                Ok(()) => !old(self).has_file && final(self).has_file,
                Err(e) => old(self).has_file && is_validation(e, "only one file is allowed"@) && final(self).has_file,
            },
            final(self).virtual_path == old(self).virtual_path,
            final(self).tags == old(self).tags,
            final(self).source_url == old(self).source_url,
    {
        if self.has_file {
            return Err(AppError::Validation(String::from_str("only one file is allowed")));
        }
        self.has_file = true;
        Ok(())
    }

    /// A text part arrives: a path or source URL replaces the earlier one,
    /// tags are read as a JSON list or comma-separated text, and other
    /// parts change nothing.
    pub fn accept_text(&mut self, field: UploadField, text: String)
        ensures
            final(self).has_file == old(self).has_file,
            final(self).virtual_path@ == if field == UploadField::VirtualPath {
                text@
            } else {
                old(self).virtual_path@
            },
            views_of(final(self).tags@) == if field == UploadField::Tags {
                spec_tag_field(text@)
            } else {
                views_of(old(self).tags@)
            },
            opt_view(final(self).source_url) == if field == UploadField::SourceUrl {
                Some(text@)
            } else {
                opt_view(old(self).source_url)
            },
    {
        match field {
            UploadField::VirtualPath => {
                self.virtual_path = text;
            },
            UploadField::Tags => {
                let tags = parse_tag_field(text.as_str());
                self.tags = tags;
            },
            UploadField::SourceUrl => {
                self.source_url = Some(text);
            },
            _ => {},
        }
    }

    /// The checked fields once every part has arrived: the file must have
    /// come, then the path, the tags and the source URL are checked in
    /// that order.
    pub fn finish(self) -> (r: AppResult<CheckedFileFields>)
        ensures
            match r {
                Ok(f) => {
                    &&& self.has_file
                    &&& normalized_path(self.virtual_path@, utf8_len(self.virtual_path@)) == Ok::<Seq<char>, Seq<char>>(f.virtual_path@)
                    &&& validated_tags(views_of(self.tags@)) == Ok::<Seq<Seq<char>>, Seq<char>>(views_of(f.tags@))
                    &&& spec_source_url(opt_view(self.source_url), "source_url"@) == Ok::<Option<Seq<char>>, Seq<char>>(opt_view(f.source_url))
                },
                Err(e) => if !self.has_file {
                    is_validation(e, "multipart request must include file"@)
                } else if normalized_path(self.virtual_path@, utf8_len(self.virtual_path@)) is Err {
                    normalized_path(self.virtual_path@, utf8_len(self.virtual_path@)) matches Err(m) && is_validation(e, m)
                } else if validated_tags(views_of(self.tags@)) is Err {
                    validated_tags(views_of(self.tags@)) matches Err(m) && is_validation(e, m)
                } else {
                    spec_source_url(opt_view(self.source_url), "source_url"@) matches Err(m) && is_validation(e, m)
                },
            },
    {
        if !self.has_file {
            return Err(AppError::Validation(String::from_str("multipart request must include file")));
        }
        let virtual_path = normalize_virtual_path(self.virtual_path.as_str())?;
        let tags = validate_tags(self.tags)?;
        let source_url = validate_source_url(self.source_url, "source_url")?;
        Ok(CheckedFileFields { virtual_path, tags, source_url })
    }
}

} // verus!
