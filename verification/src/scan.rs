//! Directory listings: the entry types shown by the gallery, the file-type
//! predicates, and the assembly of a listing (parent first, then directories,
//! then images, each group sorted by case-folded name).

use vstd::prelude::*;
use crate::text::{ascii_lower, chars_eq, chars_lt, chars_of, lemma_lt_irrefl, lemma_lt_total, lemma_lt_trans, lt_from, seq_lt, to_ascii_lower};

verus! {

/// A point in time as seconds and nanoseconds relative to the Unix epoch,
/// with `nanos < 1_000_000_000` (floor representation for earlier times).
#[derive(Debug, Clone, Copy, PartialEq, Eq)]
pub struct Timestamp {
    pub secs: i64,
    pub nanos: u32,
}

/// The nanoseconds of `t` relative to the epoch.
pub open spec fn timestamp_nanos(t: Timestamp) -> int {
    t.secs * 1_000_000_000 + t.nanos
}

/// The time `secs` seconds and `nanos` nanoseconds after the epoch, or
/// before it when `before` is set; times beyond what `Timestamp` holds are
/// clamped to its range.
pub fn timestamp_at(before: bool, secs: u64, nanos: u32) -> (r: Timestamp)
    requires
        nanos < 1_000_000_000,
    ensures
        r.nanos < 1_000_000_000,
        !before && secs <= i64::MAX ==> timestamp_nanos(r) == secs * 1_000_000_000 + nanos,
        before && secs < i64::MAX ==> timestamp_nanos(r) == -(secs * 1_000_000_000 + nanos),
        !before && secs > i64::MAX ==> r == (Timestamp { secs: i64::MAX, nanos: 999_999_999 }),
        before && secs >= i64::MAX ==> r == (Timestamp { secs: i64::MIN, nanos: 0 }),
{
    if !before {
        if secs <= i64::MAX as u64 {
            Timestamp { secs: secs as i64, nanos }
        } else {
            Timestamp { secs: i64::MAX, nanos: 999_999_999 }
        }
    } else if secs >= i64::MAX as u64 {
        Timestamp { secs: i64::MIN, nanos: 0 }
    } else if nanos == 0 {
        Timestamp { secs: -(secs as i64), nanos: 0 }
    } else {
        Timestamp { secs: -(secs as i64) - 1, nanos: 1_000_000_000 - nanos }
    }
}

/// An image file in the current directory.
#[derive(Debug, Clone)]
pub struct ImageEntry {
    pub path: String,
    pub name: String,
    pub size: u64,
    pub modified: Timestamp,
}

/// One row of a directory listing.
#[derive(Debug, Clone)]
pub enum Entry {
    Parent(String),
    SubDir { path: String, name: String },
    Image(ImageEntry),
}

/// The path an entry refers to.
pub open spec fn entry_path(e: Entry) -> Seq<char> {
    match e {
        Entry::Parent(p) => p@,
        Entry::SubDir { path, .. } => path@,
        Entry::Image(img) => img.path@,
    }
}

/// The label an entry is shown with.
pub open spec fn entry_label(e: Entry) -> Seq<char> {
    match e {
        Entry::Parent(_) => ".."@,
        Entry::SubDir { name, .. } => name@,
        Entry::Image(img) => img.name@,
    }
}

impl Entry {
    /// The label shown for this entry: `..` for the parent, else the file name.
    pub fn display_name(&self) -> (r: &str)
        ensures
            r@ == entry_label(*self),
    {
        match self {
            Entry::Parent(_) => "..",
            Entry::SubDir { name, .. } => name.as_str(),
            Entry::Image(img) => img.name.as_str(),
        }
    }

    /// The path this entry refers to.
    pub fn path(&self) -> (r: &String)
        ensures
            r@ == entry_path(*self),
    {
        match self {
            Entry::Parent(p) => p,
            Entry::SubDir { path, .. } => path,
            Entry::Image(img) => &img.path,
        }
    }

    /// Whether this entry is an image.
    pub fn is_image(&self) -> (r: bool)
        ensures
            r == (*self is Image),
    {
        match self {
            Entry::Image(_) => true,
            _ => false,
        }
    }
}

/// What `Path::extension` returns for a path (the part of the file name after
/// its last `.`, unless that dot starts the name).
pub uninterp spec fn path_extension_of(p: Seq<char>) -> Option<Seq<char>>;

/// What `Path::parent` returns for a path.
pub uninterp spec fn path_parent_of(p: Seq<char>) -> Option<Seq<char>>;

/// Index of the last `c` in `s`.
pub open spec fn last_index_of(s: Seq<char>, c: char) -> Option<int>
    decreases s.len(),
{
    if s.len() == 0 {
        None
    } else if s.last() == c {
        Some(s.len() - 1)
    } else {
        last_index_of(s.drop_last(), c)
    }
}

/// The part of `p` after its last `/`.
pub open spec fn last_segment(p: Seq<char>) -> Seq<char> {
    match last_index_of(p, '/') {
        Some(k) => p.skip(k + 1),
        None => p,
    }
}

/// The extension of a file name: what follows its last `.`, unless there is
/// none or the only one starts the name.
pub open spec fn name_extension(name: Seq<char>) -> Option<Seq<char>> {
    match last_index_of(name, '.') {
        Some(k) => if k == 0 {
            None
        } else {
            Some(name.skip(k + 1))
        },
        None => None,
    }
}

/// No `\` or `:`, which some platforms read as separators or drive prefixes.
pub open spec fn unix_only(p: Seq<char>) -> bool {
    forall|i: int| 0 <= i < p.len() ==> p[i] != '\\' && p[i] != ':'
}

/// A path whose file name is its last `/`-separated part: not ending in
/// `/`, that part neither `.` nor `..`, and no leading `//` (which Windows
/// may read as the start of a network share).
pub open spec fn plain_file_path(p: Seq<char>) -> bool {
    &&& p.len() > 0
    &&& !(p.len() >= 2 && p[0] == '/' && p[1] == '/')
    &&& p.last() != '/'
    &&& last_segment(p) != "."@
    &&& last_segment(p) != ".."@
    &&& unix_only(p)
}

/// A path (absolute or relative) with no empty, `.` or `..` part, no
/// trailing `/` (but for `/` itself), and no `\` or `:`, so that `/` is its
/// only separator and it has no drive or share prefix.
pub open spec fn clean_path(p: Seq<char>) -> bool {
    &&& p.len() >= 1
    &&& (p.len() == 1 || p.last() != '/')
    &&& unix_only(p)
    &&& !(p[0] == '.' && (p.len() == 1 || p[1] == '/' || (p[1] == '.' && (p.len() == 2 || p[2]
        == '/'))))
    &&& forall|i: int| 0 <= i < p.len() - 1 ==> !(p[i] == '/' && #[trigger] p[i + 1] == '/')
    &&& forall|i: int|
        0 <= i < p.len() - 1 && p[i] == '/' && #[trigger] p[i + 1] == '.' ==> !(i + 2 == p.len()
            || p[i + 2] == '/' || (p[i + 2] == '.' && (i + 3 == p.len() || p[i + 3] == '/')))
}

/// The parent of a clean path: `None` for `/`, else everything before its
/// last `/` (`/` itself for a top-level absolute path, the empty path for a
/// relative path of one part).
pub open spec fn clean_parent(p: Seq<char>) -> Option<Seq<char>> {
    if p.len() == 1 && p[0] == '/' {
        None
    } else {
        match last_index_of(p, '/') {
            Some(k) => if k == 0 {
                Some("/"@)
            } else {
                Some(p.take(k))
            },
            None => Some(Seq::empty()),
        }
    }
}

/// Calls `std::path::Path::extension`; for a plain file path that is the
/// extension of its last part.
#[verifier::external_body]
pub(crate) fn path_extension(p: &str) -> (r: Option<String>)
    ensures
        r matches Some(e) ==> path_extension_of(p@) == Some(e@),
        r is None ==> path_extension_of(p@) is None,
        plain_file_path(p@) ==> name_extension(last_segment(p@)) == match r {
            Some(e) => Some(e@),
            None => None::<Seq<char>>,
        },
{
    std::path::Path::new(p).extension().map(|e| e.to_string_lossy().into_owned())
}

/// Calls `std::path::Path::parent`; for a clean path that is
/// [`clean_parent`].
#[verifier::external_body]
pub(crate) fn path_parent(p: &str) -> (r: Option<String>)
    ensures
        r matches Some(q) ==> path_parent_of(p@) == Some(q@),
        r is None ==> path_parent_of(p@) is None,
        clean_path(p@) ==> clean_parent(p@) == match r {
            Some(q) => Some(q@),
            None => None::<Seq<char>>,
        },
{
    std::path::Path::new(p).parent().map(|q| q.to_string_lossy().into_owned())
}

/// ASCII lower-casing of a whole sequence.
pub open spec fn lower_seq(s: Seq<char>) -> Seq<char> {
    s.map_values(|c: char| ascii_lower(c))
}

/// Executable `lower_seq`.
pub fn to_ascii_lower_all(s: &[char]) -> (r: Vec<char>)
    ensures
        r@ == lower_seq(s@),
{
    let mut r: Vec<char> = Vec::new();
    let mut i: usize = 0;
    while i < s.len()
        invariant
            i <= s@.len(),
            r@ == lower_seq(s@.take(i as int)),
        decreases s@.len() - i,
    {
        r.push(to_ascii_lower(s[i]));
        i = i + 1;
        assert(lower_seq(s@.take(i as int)) =~= lower_seq(s@.take((i - 1) as int)).push(
            ascii_lower(s@[i - 1]),
        ));
    }
    assert(s@.take(s@.len() as int) =~= s@);
    r
}

/// The lower-cased extension of a path, if it has one.
pub open spec fn lower_ext(p: Seq<char>) -> Option<Seq<char>> {
    match path_extension_of(p) {
        Some(e) => Some(lower_seq(e)),
        None => None,
    }
}

fn lower_extension(p: &str) -> (r: Option<Vec<char>>)
    ensures
        r matches Some(v) ==> lower_ext(p@) == Some(v@),
        r is None ==> lower_ext(p@) is None,
{
    match path_extension(p) {
        Some(e) => {
            let cs = chars_of(e.as_str());
            Some(to_ascii_lower_all(cs.as_slice()))
        },
        None => None,
    }
}

/// Extensions (lower case) of the files the gallery lists as images.
pub open spec fn is_image_ext_name(e: Seq<char>) -> bool {
    e == "jpg"@ || e == "jpeg"@ || e == "png"@ || e == "gif"@ || e == "bmp"@ || e == "ico"@
        || e == "tif"@ || e == "tiff"@ || e == "webp"@ || e == "avif"@ || e == "pnm"@ || e
        == "pbm"@ || e == "pgm"@ || e == "ppm"@ || e == "tga"@ || e == "dds"@ || e == "ff"@
        || e == "qoi"@ || e == "hdr"@ || e == "exr"@ || e == "pdf"@
}

fn eq_lit(a: &Vec<char>, lit: &str) -> (r: bool)
    ensures
        r == (a@ == lit@),
{
    let b = chars_of(lit);
    chars_eq(a.as_slice(), b.as_slice())
}

/// Whether a path's extension (case-insensitively) is one the gallery lists.
pub open spec fn image_ext_spec(p: Seq<char>) -> bool {
    match lower_ext(p) {
        Some(e) => is_image_ext_name(e),
        None => false,
    }
}

/// A path is listed as an image exactly when its extension, lower-cased, is
/// one of the supported formats' extensions: jpg, jpeg, png, gif, bmp, ico,
/// tif, tiff, webp, avif, pnm, pbm, pgm, ppm, tga, dds, ff, qoi, hdr, exr and
/// pdf.
pub proof fn lemma_image_extensions(p: Seq<char>)
    ensures
        image_ext_spec(p) == (lower_ext(p) matches Some(e) && seq![
            "jpg"@, "jpeg"@, "png"@, "gif"@, "bmp"@, "ico"@, "tif"@, "tiff"@, "webp"@, "avif"@,
            "pnm"@, "pbm"@, "pgm"@, "ppm"@, "tga"@, "dds"@, "ff"@, "qoi"@, "hdr"@, "exr"@,
            "pdf"@,
        ].contains(e)),
{
    let l = seq![
        "jpg"@, "jpeg"@, "png"@, "gif"@, "bmp"@, "ico"@, "tif"@, "tiff"@, "webp"@, "avif"@,
        "pnm"@, "pbm"@, "pgm"@, "ppm"@, "tga"@, "dds"@, "ff"@, "qoi"@, "hdr"@, "exr"@, "pdf"@,
    ];
    match lower_ext(p) {
        Some(e) => {
            if is_image_ext_name(e) {
                if e == "jpg"@ { assert(l[0] == e); }
                else if e == "jpeg"@ { assert(l[1] == e); }
                else if e == "png"@ { assert(l[2] == e); }
                else if e == "gif"@ { assert(l[3] == e); }
                else if e == "bmp"@ { assert(l[4] == e); }
                else if e == "ico"@ { assert(l[5] == e); }
                else if e == "tif"@ { assert(l[6] == e); }
                else if e == "tiff"@ { assert(l[7] == e); }
                else if e == "webp"@ { assert(l[8] == e); }
                else if e == "avif"@ { assert(l[9] == e); }
                else if e == "pnm"@ { assert(l[10] == e); }
                else if e == "pbm"@ { assert(l[11] == e); }
                else if e == "pgm"@ { assert(l[12] == e); }
                else if e == "ppm"@ { assert(l[13] == e); }
                else if e == "tga"@ { assert(l[14] == e); }
                else if e == "dds"@ { assert(l[15] == e); }
                else if e == "ff"@ { assert(l[16] == e); }
                else if e == "qoi"@ { assert(l[17] == e); }
                else if e == "hdr"@ { assert(l[18] == e); }
                else if e == "exr"@ { assert(l[19] == e); }
                else { assert(l[20] == e); }
            }
            if l.contains(e) {
                let k = choose|k: int| 0 <= k < l.len() && l[k] == e;
                assert(0 <= k < 21);
            }
        },
        None => {},
    }
}

/// True if `path` has one of the listed image extensions (ASCII case-insensitive).
pub fn is_image_ext(path: &str) -> (r: bool)
    ensures
        r == image_ext_spec(path@),
{
    match lower_extension(path) {
        Some(e) => {
            eq_lit(&e, "jpg") || eq_lit(&e, "jpeg") || eq_lit(&e, "png") || eq_lit(&e, "gif")
                || eq_lit(&e, "bmp") || eq_lit(&e, "ico") || eq_lit(&e, "tif") || eq_lit(
                &e,
                "tiff",
            ) || eq_lit(&e, "webp") || eq_lit(&e, "avif") || eq_lit(&e, "pnm") || eq_lit(
                &e,
                "pbm",
            ) || eq_lit(&e, "pgm") || eq_lit(&e, "ppm") || eq_lit(&e, "tga") || eq_lit(&e, "dds")
                || eq_lit(&e, "ff") || eq_lit(&e, "qoi") || eq_lit(&e, "hdr") || eq_lit(
                &e,
                "exr",
            ) || eq_lit(&e, "pdf")
        },
        None => false,
    }
}

/// Whether a path has a `.pdf` extension, ignoring ASCII case.
pub open spec fn pdf_spec(p: Seq<char>) -> bool {
    lower_ext(p) == Some("pdf"@)
}

/// True if `path` has a `.pdf` extension (case-insensitive).
pub fn is_pdf_path(path: &str) -> (r: bool)
    ensures
        r == pdf_spec(path@),
{
    match lower_extension(path) {
        Some(e) => eq_lit(&e, "pdf"),
        None => false,
    }
}

/// Whether a path names an animated format (GIF), ignoring ASCII case.
pub open spec fn animated_spec(p: Seq<char>) -> bool {
    lower_ext(p) == Some("gif"@)
}

/// True if `path` is played back as an animation (`.gif`, case-insensitive).
pub fn is_animated_path(path: &str) -> (r: bool)
    ensures
        r == animated_spec(path@),
{
    match lower_extension(path) {
        Some(e) => eq_lit(&e, "gif"),
        None => false,
    }
}


/// Metadata of a file, symlinks followed.
#[derive(Debug, Clone, Copy, PartialEq, Eq)]
pub struct FileMeta {
    pub is_file: bool,
    pub size: u64,
    pub modified: Timestamp,
}

/// One entry of a directory as read from disk.
#[derive(Debug)]
pub struct RawEntry {
    /// Full path of the entry.
    pub path: String,
    /// Its file name, when that is valid UTF-8.
    pub name: Option<String>,
    /// Whether it is a directory (symlinks not followed); `None` when its
    /// metadata could not be read.
    pub is_dir: Option<bool>,
    /// Metadata with symlinks followed; `None` when not read or unreadable.
    pub file: Option<FileMeta>,
}

/// Names starting with `.` are hidden.
pub open spec fn hidden(name: Seq<char>) -> bool {
    name.len() > 0 && name[0] == '.'
}

/// A raw entry listed as a subdirectory.
pub open spec fn listed_dir(r: RawEntry) -> bool {
    r.name matches Some(n) && !hidden(n@) && r.is_dir == Some(true)
}

/// A raw entry listed as an image: a visible regular file (after following
/// symlinks) with an image extension.
pub open spec fn listed_image(r: RawEntry) -> bool {
    &&& r.name matches Some(n)
    &&& !hidden(n@)
    &&& r.is_dir == Some(false)
    &&& image_ext_spec(r.path@)
    &&& r.file matches Some(f)
    &&& f.is_file
}

/// The subdirectories among `raws`, in read order.
pub open spec fn dir_entries(raws: Seq<RawEntry>) -> Seq<Entry>
    decreases raws.len(),
{
    if raws.len() == 0 {
        Seq::empty()
    } else {
        let r = raws.last();
        let rest = dir_entries(raws.drop_last());
        if listed_dir(r) {
            rest.push(Entry::SubDir { path: r.path, name: r.name.unwrap() })
        } else {
            rest
        }
    }
}

/// The images among `raws`, in read order.
pub open spec fn image_entries(raws: Seq<RawEntry>) -> Seq<Entry>
    decreases raws.len(),
{
    if raws.len() == 0 {
        Seq::empty()
    } else {
        let r = raws.last();
        let rest = image_entries(raws.drop_last());
        if listed_image(r) {
            let f = r.file.unwrap();
            rest.push(
                Entry::Image(
                    ImageEntry { path: r.path, name: r.name.unwrap(), size: f.size, modified: f.modified },
                ),
            )
        } else {
            rest
        }
    }
}

/// What `str::to_lowercase` returns for a string.
pub uninterp spec fn unicode_lower_of(s: Seq<char>) -> Seq<char>;

/// Calls `str::to_lowercase`, which lower-cases ASCII letters as ASCII.
#[verifier::external_body]
fn unicode_lower(s: &str) -> (r: String)
    ensures
        r@ == unicode_lower_of(s@),
        (forall|i: int| 0 <= i < s@.len() ==> (s@[i] as u32) < 128) ==> r@ == lower_seq(s@),
{
    s.to_lowercase()
}

/// The key listings are sorted by: the lower-cased name.
pub open spec fn sort_key(e: Entry) -> Seq<char> {
    unicode_lower_of(entry_label(e))
}

/// Entry `i` of `items` comes before entry `j`: smaller key, or equal keys
/// and `i < j` (a stable order).
pub open spec fn before(items: Seq<Entry>, i: int, j: int) -> bool {
    seq_lt(sort_key(items[i]), sort_key(items[j])) || (sort_key(items[i]) == sort_key(items[j])
        && i < j)
}

/// `p` lists every index of `items` once, in stable key order.
pub open spec fn sorts(items: Seq<Entry>, p: Seq<int>) -> bool {
    &&& p.len() == items.len()
    &&& forall|k: int| 0 <= k < p.len() ==> 0 <= #[trigger] p[k] < items.len()
    &&& forall|a: int, b: int| 0 <= a < b < p.len() ==> before(items, #[trigger] p[a], #[trigger] p[b])
}

/// `out` is `items` sorted stably by key.
pub open spec fn stably_sorted(items: Seq<Entry>, out: Seq<Entry>) -> bool {
    exists|p: Seq<int>| sorts(items, p) && out == p.map_values(|i: int| items[i])
}

/// The listing of a directory: `..` first unless it is the root, then the
/// subdirectories, then the images, each group sorted stably by lower-cased
/// name.
pub open spec fn is_listing(dir: Seq<char>, raws: Seq<RawEntry>, out: Seq<Entry>) -> bool {
    let h: int = if path_parent_of(dir) is Some {
        1
    } else {
        0
    };
    let d = dir_entries(raws).len() as int;
    &&& out.len() == h + d + image_entries(raws).len()
    &&& (path_parent_of(dir) matches Some(p) ==> out[0] is Parent && out[0]->Parent_0@ == p)
    &&& stably_sorted(dir_entries(raws), out.subrange(h, h + d))
    &&& stably_sorted(image_entries(raws), out.subrange(h + d, out.len() as int))
}

impl Entry {
    /// A field-by-field copy.
    pub fn duplicate(&self) -> (r: Entry)
        ensures
            r == *self,
    {
        match self {
            Entry::Parent(p) => Entry::Parent(p.clone()),
            Entry::SubDir { path, name } => Entry::SubDir { path: path.clone(), name: name.clone() },
            Entry::Image(img) => Entry::Image(
                ImageEntry {
                    path: img.path.clone(),
                    name: img.name.clone(),
                    size: img.size,
                    modified: img.modified,
                },
            ),
        }
    }
}

fn sort_key_of(e: &Entry) -> (r: Vec<char>)
    ensures
        r@ == sort_key(*e),
{
    let low = unicode_lower(e.display_name());
    chars_of(low.as_str())
}

proof fn lemma_before_trans(items: Seq<Entry>, i: int, j: int, k: int)
    requires
        before(items, i, j),
        before(items, j, k),
    ensures
        before(items, i, k),
{
    let (a, b, c) = (sort_key(items[i]), sort_key(items[j]), sort_key(items[k]));
    if seq_lt(a, b) && seq_lt(b, c) {
        lemma_lt_trans(a, b, c, 0);
    }
}

/// The stable sort order of `items`.
fn sort_order(items: &Vec<Entry>) -> (p: Vec<usize>)
    ensures
        sorts(items@, p@.map_values(|i: usize| i as int)),
{
    let n = items.len();
    let mut keys: Vec<Vec<char>> = Vec::new();
    let mut t: usize = 0;
    while t < n
        invariant
            t <= n == items@.len(),
            keys@.len() == t,
            forall|k: int| 0 <= k < t ==> (#[trigger] keys@[k])@ == sort_key(items@[k]),
        decreases n - t,
    {
        keys.push(sort_key_of(&items[t]));
        t = t + 1;
    }
    let mut p: Vec<usize> = Vec::new();
    let mut i: usize = 0;
    while i < n
        invariant
            i <= n == items@.len(),
            keys@.len() == n,
            forall|k: int| 0 <= k < n ==> (#[trigger] keys@[k])@ == sort_key(items@[k]),
            p@.len() == i,
            forall|k: int| 0 <= k < p@.len() ==> #[trigger] p@[k] < i,
            forall|a: int, b: int|
                0 <= a < b < p@.len() ==> before(items@, #[trigger] p@[a] as int, #[trigger] p@[b] as int),
        decreases n - i,
    {
        let mut j = p.len();
        while j > 0 && chars_lt(keys[i].as_slice(), keys[p[j - 1]].as_slice())
            invariant
                j <= p@.len() == i,
                i < n == items@.len(),
                keys@.len() == n,
                forall|k: int| 0 <= k < n ==> (#[trigger] keys@[k])@ == sort_key(items@[k]),
                forall|k: int| 0 <= k < p@.len() ==> #[trigger] p@[k] < i,
                forall|k: int| j <= k < p@.len() ==> before(items@, i as int, #[trigger] p@[k] as int),
            decreases j,
        {
            j = j - 1;
        }
        proof {
            if j > 0 {
                let q = p@[j - 1] as int;
                let (kq, ki) = (sort_key(items@[q]), sort_key(items@[i as int]));
                assert(keys@[q]@ == kq && keys@[i as int]@ == ki);
                assert(!seq_lt(ki, kq));
                if !seq_lt(kq, ki) {
                    lemma_lt_total(ki, kq, 0);
                    assert(ki.skip(0) =~= ki && kq.skip(0) =~= kq);
                    assert(ki =~= kq);
                }
                assert(before(items@, q, i as int));
                assert forall|a: int| 0 <= a < j implies before(items@, #[trigger] p@[a] as int, i as int) by {
                    if a < j - 1 {
                        lemma_before_trans(items@, p@[a] as int, q, i as int);
                    }
                }
            }
        }
        let ghost old_p = p@;
        p.insert(j, i);
        proof {
            assert forall|k: int| 0 <= k < p@.len() implies #[trigger] p@[k] < i + 1 by {
                if k < j {
                    assert(p@[k] == old_p[k]);
                } else if k > j {
                    assert(p@[k] == old_p[k - 1]);
                }
            }
            assert forall|a: int, b: int| 0 <= a < b < p@.len() implies before(
                items@,
                #[trigger] p@[a] as int,
                #[trigger] p@[b] as int,
            ) by {
                if a < j && b < j {
                    assert(p@[a] == old_p[a] && p@[b] == old_p[b]);
                } else if a < j && b == j {
                    assert(p@[a] == old_p[a]);
                } else if a < j && b > j {
                    assert(p@[a] == old_p[a] && p@[b] == old_p[b - 1]);
                } else if a == j {
                    assert(p@[b] == old_p[b - 1]);
                } else {
                    assert(p@[a] == old_p[a - 1] && p@[b] == old_p[b - 1]);
                }
            }
        }
        i = i + 1;
    }
    proof {
        let pm = p@.map_values(|i: usize| i as int);
        assert forall|a: int, b: int| 0 <= a < b < pm.len() implies before(items@, #[trigger] pm[a], #[trigger] pm[b]) by {
            assert(pm[a] == p@[a] as int && pm[b] == p@[b] as int);
        }
        assert forall|k: int| 0 <= k < pm.len() implies 0 <= #[trigger] pm[k] < items@.len() by {
            assert(pm[k] == p@[k] as int);
        }
    }
    p
}

/// `items` sorted stably by lower-cased name.
fn sorted_entries(items: Vec<Entry>) -> (out: Vec<Entry>)
    ensures
        stably_sorted(items@, out@),
{
    let p = sort_order(&items);
    let ghost pm = p@.map_values(|i: usize| i as int);
    let mut out: Vec<Entry> = Vec::new();
    let mut k: usize = 0;
    while k < p.len()
        invariant
            k <= p@.len(),
            sorts(items@, pm),
            pm == p@.map_values(|i: usize| i as int),
            out@ == pm.take(k as int).map_values(|i: int| items@[i]),
        decreases p@.len() - k,
    {
        assert(pm[k as int] == p@[k as int] as int);
        let e = items[p[k]].duplicate();
        out.push(e);
        k = k + 1;
        assert(out@ =~= pm.take(k as int).map_values(|i: int| items@[i]));
    }
    assert(pm.take(p@.len() as int) =~= pm);
    out
}

fn listed_name(r: &RawEntry) -> (res: Option<String>)
    ensures
        res matches Some(n) ==> r.name == Some(n) && !hidden(n@),
        res is None ==> !(r.name matches Some(n) && !hidden(n@)),
{
    match &r.name {
        Some(n) => {
            let cs = chars_of(n.as_str());
            if cs.len() > 0 && cs[0] == '.' {
                None
            } else {
                Some(n.clone())
            }
        },
        None => None,
    }
}

/// The listing of directory `dir` given its raw entries (see [`is_listing`]).
pub fn listing(dir: &str, raws: Vec<RawEntry>) -> (out: Vec<Entry>)
    ensures
        is_listing(dir@, raws@, out@),
{
    let mut dirs: Vec<Entry> = Vec::new();
    let mut images: Vec<Entry> = Vec::new();
    let mut i: usize = 0;
    while i < raws.len()
        invariant
            i <= raws@.len(),
            dirs@ == dir_entries(raws@.take(i as int)),
            images@ == image_entries(raws@.take(i as int)),
        decreases raws@.len() - i,
    {
        assert(raws@.take(i + 1).drop_last() =~= raws@.take(i as int));
        let r = &raws[i];
        match listed_name(r) {
            Some(name) => {
                match r.is_dir {
                    Some(true) => {
                        dirs.push(Entry::SubDir { path: r.path.clone(), name });
                    },
                    Some(false) => {
                        if is_image_ext(r.path.as_str()) {
                            match r.file {
                                Some(f) => {
                                    if f.is_file {
                                        images.push(
                                            Entry::Image(
                                                ImageEntry {
                                                    path: r.path.clone(),
                                                    name,
                                                    size: f.size,
                                                    modified: f.modified,
                                                },
                                            ),
                                        );
                                    }
                                },
                                None => {},
                            }
                        }
                    },
                    None => {},
                }
            },
            None => {},
        }
        i = i + 1;
    }
    assert(raws@.take(raws@.len() as int) =~= raws@);
    let dirs = sorted_entries(dirs);
    let images = sorted_entries(images);
    let mut out: Vec<Entry> = Vec::new();
    match path_parent(dir) {
        Some(p) => out.push(Entry::Parent(p)),
        None => {},
    }
    let h = out.len();
    let mut k: usize = 0;
    while k < dirs.len()
        invariant
            k <= dirs@.len(),
            out@.len() == h + k,
            stably_sorted(dir_entries(raws@), dirs@),
            stably_sorted(image_entries(raws@), images@),
            h <= 1,
            path_parent_of(dir@) matches Some(pp) ==> h == 1 && out@[0] is Parent
                && out@[0]->Parent_0@ == pp,
            path_parent_of(dir@) is None ==> h == 0,
            out@.subrange(h as int, (h + k) as int) == dirs@.take(k as int),
        decreases dirs@.len() - k,
    {
        out.push(dirs[k].duplicate());
        k = k + 1;
        assert(out@.subrange(h as int, (h + k) as int) =~= dirs@.take(k as int));
    }
    assert(dirs@.take(dirs@.len() as int) =~= dirs@);
    let hd = out.len();
    let mut m: usize = 0;
    while m < images.len()
        invariant
            m <= images@.len(),
            out@.len() == hd + m,
            hd == h + dirs@.len(),
            path_parent_of(dir@) matches Some(pp) ==> h == 1 && out@[0] is Parent
                && out@[0]->Parent_0@ == pp,
            path_parent_of(dir@) is None ==> h == 0,
            stably_sorted(dir_entries(raws@), dirs@),
            stably_sorted(image_entries(raws@), images@),
            out@.subrange(h as int, hd as int) == dirs@,
            out@.subrange(hd as int, (hd + m) as int) == images@.take(m as int),
        decreases images@.len() - m,
    {
        let ghost old_out = out@;
        out.push(images[m].duplicate());
        m = m + 1;
        assert(out@.subrange(hd as int, (hd + m) as int) =~= images@.take(m as int));
        assert(out@.subrange(h as int, hd as int) =~= old_out.subrange(h as int, hd as int));
    }
    assert(images@.take(images@.len() as int) =~= images@);
    out
}

} // verus!
