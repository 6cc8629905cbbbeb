//! Indexing a directory listing into buckets of selectable wallpaper items,
//! and resolving a bucket to concrete file paths.
//!
//! The library never touches the file system: the caller lists a directory
//! and hands the result in as a vector of [`ScanEntry`] values, one per
//! directory entry.  Everything from there on — which entries qualify, how
//! they are bucketed, which one is selected — is computed, and verified,
//! here.

use vstd::prelude::*;
use vstd::seq_lib::group_seq_properties;

verus! {

broadcast use group_seq_properties;

/// What kind of file-system object a scanned entry is.
#[derive(Clone, Copy, Debug, PartialEq, Eq, Structural)]
pub enum EntryKind {
    Directory,
    File,
    /// Anything that is neither a plain file nor a directory; never selectable.
    Other,
}

/// One entry of a directory listing, as plain values.
///
/// `path` is the full path of the entry; `stem` is its base name without the
/// final extension; `extension` is the final extension, if any.
#[derive(Clone, Debug)]
pub struct ScanEntry {
    pub path: String,
    pub stem: String,
    pub extension: Option<String>,
    pub kind: EntryKind,
}

/// A selectable item of one bucket: either a whole directory of candidate
/// images, or a single image file.
#[derive(Clone, Debug)]
pub enum WallpaperItem {
    /// A single image file, directly usable.
    Entry(String),
    /// A subdirectory whose file contents are the candidate images.
    Group(String),
}

/// The extension of a scanned entry, or the empty sequence if it has none.
pub open spec fn extension_view(e: ScanEntry) -> Seq<char> {
    match e.extension {
        Some(x) => x@,
        None => Seq::empty(),
    }
}

/// Whether a scanned entry is a plain file with one of the supported
/// extensions; only such files are selectable.
pub open spec fn is_supported_file(e: ScanEntry, exts: Seq<Seq<char>>) -> bool {
    e.kind is File && e.extension is Some && exts.contains(extension_view(e))
}

/// Errors of the directory indexing functions.
#[derive(Clone, Copy, Debug, PartialEq, Eq, Structural)]
pub enum ScanError {
    /// The listing yielded nothing usable.
    Empty,
}

/// Whether the extension set contains `s`.
fn contains_str(exts: &Vec<String>, s: &String) -> (r: bool)
    ensures
        r == exts.deep_view().contains(s@),
{
    let mut i: usize = 0;
    while i < exts.len()
        invariant
            i <= exts.len(),
            forall|j: int| 0 <= j < i ==> exts.deep_view()[j] != s@,
        decreases exts.len() - i,
    {
        if exts[i].eq(s) {
            assert(exts.deep_view()[i as int] == s@);
            return true;
        }
        i += 1;
    }
    false
}

/// Whether `e` is a plain file with a supported extension.
fn supported_file(e: &ScanEntry, supported_extensions: &Vec<String>) -> (r: bool)
    ensures
        r == is_supported_file(*e, supported_extensions.deep_view()),
{
    match (&e.kind, &e.extension) {
        (EntryKind::File, Some(ext)) => contains_str(supported_extensions, ext),
        _ => false,
    }
}

/// All wallpapers in one directory listing: the paths of the plain files
/// whose extension is supported, in listing order.
pub open spec fn spec_wallpapers(entries: Seq<ScanEntry>, exts: Seq<Seq<char>>) -> Seq<String>
    decreases entries.len(),
{
    if entries.len() == 0 {
        Seq::empty()
    } else {
        let rest = spec_wallpapers(entries.drop_last(), exts);
        if is_supported_file(entries.last(), exts) {
            rest.push(entries.last().path)
        } else {
            rest
        }
    }
}

/// Lists the usable wallpapers of a directory, regardless of file name.
///
/// A group may contain arbitrarily named images; this keeps every plain file
/// whose extension is supported, in listing order.  An empty result is an
/// error: a group with no usable member cannot satisfy a selection.
pub fn get_wallpapers(entries: &Vec<ScanEntry>, supported_extensions: &Vec<String>) -> (r:
    Result<Vec<String>, ScanError>)
    ensures
        match r {
            Ok(v) => v@ == spec_wallpapers(entries@, supported_extensions.deep_view())
                && v@.len() > 0,
            Err(e) => e == ScanError::Empty && spec_wallpapers(
                entries@,
                supported_extensions.deep_view(),
            ).len() == 0,
        },
{
    let ghost exts = supported_extensions.deep_view();
    let mut out: Vec<String> = Vec::new();
    let mut i: usize = 0;
    while i < entries.len()
        invariant
            i <= entries.len(),
            exts == supported_extensions.deep_view(),
            out@ == spec_wallpapers(entries@.take(i as int), exts),
        decreases entries.len() - i,
    {
        let e = &entries[i];
        proof {
            assert(entries@.take(i + 1).drop_last() =~= entries@.take(i as int));
            assert(entries@.take(i + 1).last() == entries@[i as int]);
        }
        if supported_file(e, supported_extensions) {
            out.push(e.path.clone());
        }
        i += 1;
    }
    proof {
        assert(entries@.take(entries@.len() as int) =~= entries@);
    }
    if out.len() == 0 {
        Err(ScanError::Empty)
    } else {
        Ok(out)
    }
}

/// Whether a decimal digit.
pub open spec fn is_decimal_digit(c: char) -> bool {
    48 <= c as int <= 57
}

/// Whether every character of `s` is a decimal digit.
pub open spec fn all_digits(s: Seq<char>) -> bool {
    forall|i: int| 0 <= i < s.len() ==> is_decimal_digit(s[i])
}

/// The number the digit string `s` denotes.
pub open spec fn digits_value(s: Seq<char>) -> int
    decreases s.len(),
{
    if s.len() == 0 {
        0
    } else {
        digits_value(s.drop_last()) * 10 + (s.last() as int - 48)
    }
}

/// The hour a bucket name denotes: a non-empty string of decimal digits
/// whose value is below 24; anything else names no hour bucket.
pub open spec fn spec_parse_hour(s: Seq<char>) -> Option<u8> {
    if s.len() > 0 && all_digits(s) && digits_value(s) < 24 {
        Some(digits_value(s) as u8)
    } else {
        None
    }
}

/// Parses a bucket name as an hour in `[0, 23]`.
pub fn parse_hour(stem: &str) -> (r: Option<u8>)
    ensures
        r == spec_parse_hour(stem@),
        r is Some ==> r.unwrap() < 24,
{
    let n = stem.unicode_len();
    if n == 0 {
        return None;
    }
    let mut acc: u64 = 0;
    let mut i: usize = 0;
    while i < n
        invariant
            i <= n,
            n == stem@.len(),
            all_digits(stem@.take(i as int)),
            digits_value(stem@.take(i as int)) <= 23 ==> acc == digits_value(
                stem@.take(i as int),
            ),
            digits_value(stem@.take(i as int)) > 23 ==> 24 <= acc,
            acc <= 239,
        decreases n - i,
    {
        let c = stem.get_char(i);
        let d = c as u32;
        if d < 48 || d > 57 {
            assert(!is_decimal_digit(stem@[i as int]));
            return None;
        }
        proof {
            assert(stem@.take(i + 1).drop_last() =~= stem@.take(i as int));
            assert(stem@.take(i + 1).last() == stem@[i as int]);
        }
        if acc > 23 {
            acc = 24;
        } else {
            acc = acc * 10 + (d - 48) as u64;
        }
        i += 1;
    }
    proof {
        assert(stem@.take(n as int) =~= stem@);
    }
    if acc < 24 {
        Some(acc as u8)
    } else {
        None
    }
}

/// Whether a directory of this name is a thematic collection rather than an
/// hour bucket: names longer than two characters always are; shorter names
/// only if they do not start with a digit.
pub open spec fn is_collection_name(s: Seq<char>) -> bool {
    s.len() > 2 || (s.len() > 0 && !is_decimal_digit(s[0]))
}

/// The collections of a directory listing: the subdirectories that are not
/// hour buckets, in listing order.
pub open spec fn spec_collections(entries: Seq<ScanEntry>) -> Seq<String>
    decreases entries.len(),
{
    if entries.len() == 0 {
        Seq::empty()
    } else {
        let rest = spec_collections(entries.drop_last());
        let e = entries.last();
        if e.kind is Directory && is_collection_name(e.stem@) {
            rest.push(e.path)
        } else {
            rest
        }
    }
}

/// Lists the thematic collections of a directory: subdirectories named
/// anything but an hour, e.g. seasonal or dark/light variants.
pub fn get_collections(entries: &Vec<ScanEntry>) -> (r: Vec<String>)
    ensures
        r@ == spec_collections(entries@),
{
    let mut out: Vec<String> = Vec::new();
    let mut i: usize = 0;
    while i < entries.len()
        invariant
            i <= entries.len(),
            out@ == spec_collections(entries@.take(i as int)),
        decreases entries.len() - i,
    {
        let e = &entries[i];
        proof {
            assert(entries@.take(i + 1).drop_last() =~= entries@.take(i as int));
            assert(entries@.take(i + 1).last() == entries@[i as int]);
        }
        if matches!(e.kind, EntryKind::Directory) {
            let name_len = e.stem.as_str().unicode_len();
            let eligible = if name_len > 2 {
                true
            } else if name_len == 0 {
                false
            } else {
                let first = e.stem.as_str().get_char(0);
                let d = first as u32;
                !(48 <= d && d <= 57)
            };
            if eligible {
                out.push(e.path.clone());
            }
        }
        i += 1;
    }
    proof {
        assert(entries@.take(entries@.len() as int) =~= entries@);
    }
    out
}


/// The group items of hour bucket `h`: one per subdirectory whose name
/// denotes `h`, in listing order.
pub open spec fn spec_hour_groups(entries: Seq<ScanEntry>, h: u8) -> Seq<WallpaperItem>
    decreases entries.len(),
{
    if entries.len() == 0 {
        Seq::empty()
    } else {
        let rest = spec_hour_groups(entries.drop_last(), h);
        let e = entries.last();
        if e.kind is Directory && spec_parse_hour(e.stem@) == Some(h) {
            rest.push(WallpaperItem::Group(e.path))
        } else {
            rest
        }
    }
}

/// The entry items of hour bucket `h`: one per supported file whose name
/// denotes `h`, in listing order.
pub open spec fn spec_hour_entries(entries: Seq<ScanEntry>, h: u8, exts: Seq<Seq<char>>) -> Seq<
    WallpaperItem,
>
    decreases entries.len(),
{
    if entries.len() == 0 {
        Seq::empty()
    } else {
        let rest = spec_hour_entries(entries.drop_last(), h, exts);
        let e = entries.last();
        if is_supported_file(e, exts) && spec_parse_hour(e.stem@) == Some(h) {
            rest.push(WallpaperItem::Entry(e.path))
        } else {
            rest
        }
    }
}

/// The items of hour bucket `h`: every group before every entry, so that a
/// whole directory of images always takes priority over a single file.
pub open spec fn spec_hour_bucket(entries: Seq<ScanEntry>, h: u8, exts: Seq<Seq<char>>) -> Seq<
    WallpaperItem,
> {
    spec_hour_groups(entries, h) + spec_hour_entries(entries, h, exts)
}

/// The hour-keyed bucket map over the hours below `h`: one pair per hour
/// that is at least `min` and has a non-empty bucket, in ascending order.
pub open spec fn spec_hour_map(
    entries: Seq<ScanEntry>,
    exts: Seq<Seq<char>>,
    h: int,
    min: int,
) -> Seq<(u8, Seq<WallpaperItem>)>
    decreases h,
{
    if h <= 0 {
        Seq::empty()
    } else {
        let rest = spec_hour_map(entries, exts, h - 1, min);
        let b = spec_hour_bucket(entries, (h - 1) as u8, exts);
        if h - 1 >= min && b.len() > 0 {
            rest.push((((h - 1) as u8), b))
        } else {
            rest
        }
    }
}

/// A mapping from hour to the bucket of items selectable in that hour,
/// with the keys in ascending order.
pub struct HourMap {
    pub buckets: Vec<(u8, Vec<WallpaperItem>)>,
}

impl View for HourMap {
    type V = Seq<(u8, Seq<WallpaperItem>)>;

    open spec fn view(&self) -> Seq<(u8, Seq<WallpaperItem>)> {
        Seq::new(self.buckets@.len(), |i: int| (self.buckets@[i].0, self.buckets@[i].1@))
    }
}

impl HourMap {
    /// Keys are hours, strictly ascending; no bucket is empty; and within
    /// each bucket every group precedes every entry.
    pub open spec fn wf(self) -> bool {
        &&& forall|i: int, j: int|
            0 <= i < j < self@.len() ==> self@[i].0 < self@[j].0
        &&& forall|i: int| 0 <= i < self@.len() ==> self@[i].1.len() > 0
        &&& forall|i: int, j: int, k: int|
            0 <= i < self@.len() && 0 <= j < k < self@[i].1.len() && self@[i].1[j] is Entry
                ==> self@[i].1[k] is Entry
    }

    /// The bucket of `hour`, if the map has one.
    pub fn get(&self, hour: u8) -> (r: Option<&Vec<WallpaperItem>>)
        ensures
            match r {
                Some(v) => exists|i: int|
                    0 <= i < self@.len() && self@[i].0 == hour && v@ == #[trigger] self@[i].1,
                None => forall|i: int| 0 <= i < self@.len() ==> self@[i].0 != hour,
            },
    {
        let mut i: usize = 0;
        while i < self.buckets.len()
            invariant
                i <= self.buckets@.len(),
                forall|j: int| 0 <= j < i ==> self@[j].0 != hour,
            decreases self.buckets@.len() - i,
        {
            let pair = &self.buckets[i];
            if pair.0 == hour {
                assert(self@[i as int].0 == hour && pair.1@ == self@[i as int].1);
                return Some(&pair.1);
            }
            i += 1;
        }
        None
    }
}


/// Every item the groups pass collects is a group.
proof fn lemma_hour_groups_are_groups(entries: Seq<ScanEntry>, h: u8)
    ensures
        forall|i: int|
            0 <= i < spec_hour_groups(entries, h).len() ==> spec_hour_groups(entries, h)[i]
                is Group,
    decreases entries.len(),
{
    if entries.len() > 0 {
        lemma_hour_groups_are_groups(entries.drop_last(), h);
    }
}

/// Every item the entries pass collects is an entry.
proof fn lemma_hour_entries_are_entries(entries: Seq<ScanEntry>, h: u8, exts: Seq<Seq<char>>)
    ensures
        forall|i: int|
            0 <= i < spec_hour_entries(entries, h, exts).len() ==> spec_hour_entries(
                entries,
                h,
                exts,
            )[i] is Entry,
    decreases entries.len(),
{
    if entries.len() > 0 {
        lemma_hour_entries_are_entries(entries.drop_last(), h, exts);
    }
}

/// However the listing is ordered, a bucket built from it places every
/// group before every entry.
pub proof fn lemma_bucket_groups_before_entries(
    entries: Seq<ScanEntry>,
    h: u8,
    exts: Seq<Seq<char>>,
)
    ensures
        forall|j: int, k: int|
            0 <= j < k < spec_hour_bucket(entries, h, exts).len() && spec_hour_bucket(
                entries,
                h,
                exts,
            )[j] is Entry ==> spec_hour_bucket(entries, h, exts)[k] is Entry,
{
    lemma_hour_groups_are_groups(entries, h);
    lemma_hour_entries_are_entries(entries, h, exts);
}

/// The hour map is keyed by ascending hours in `[min, h)`, every bucket is
/// non-empty and is exactly the bucket its hour collects.
proof fn lemma_hour_map_wf(entries: Seq<ScanEntry>, exts: Seq<Seq<char>>, h: int, min: int)
    requires
        h <= 24,
    ensures
        forall|k: int|
            0 <= k < spec_hour_map(entries, exts, h, min).len() ==> {
                let p = #[trigger] spec_hour_map(entries, exts, h, min)[k];
                &&& min <= p.0 < h
                &&& p.1.len() > 0
                &&& p.1 == spec_hour_bucket(entries, p.0, exts)
            },
        forall|k1: int, k2: int|
            0 <= k1 < k2 < spec_hour_map(entries, exts, h, min).len() ==> spec_hour_map(
                entries,
                exts,
                h,
                min,
            )[k1].0 < spec_hour_map(entries, exts, h, min)[k2].0,
    decreases h,
{
    if h > 0 {
        lemma_hour_map_wf(entries, exts, h - 1, min);
        let rest = spec_hour_map(entries, exts, h - 1, min);
        let cur = spec_hour_map(entries, exts, h, min);
        let b = spec_hour_bucket(entries, (h - 1) as u8, exts);
        if h - 1 >= min && b.len() > 0 {
            assert(cur == rest.push((((h - 1) as u8), b)));
            assert(forall|k: int| 0 <= k < rest.len() ==> cur[k] == #[trigger] rest[k]);
            assert(cur[cur.len() - 1] == (((h - 1) as u8), b));
        } else {
            assert(cur == rest);
        }
    }
}

/// Indexes a directory listing into the hour-keyed bucket map.
///
/// Only entries whose base name denotes an hour in `[0, 23]` become buckets;
/// subdirectories become groups, supported files become entries, and within
/// each bucket all groups precede all entries.  With a `time_filter`, hours
/// before the filter are dropped — they have already passed today.  An empty
/// map is an error: the main collection cannot work without wallpapers.
pub fn get_wallpaper_items(
    entries: &Vec<ScanEntry>,
    supported_extensions: &Vec<String>,
    time_filter: Option<u8>,
) -> (r: Result<HourMap, ScanError>)
    ensures
        match r {
            Ok(m) => {
                &&& m@ == spec_hour_map(
                    entries@,
                    supported_extensions.deep_view(),
                    24,
                    spec_min_hour(time_filter),
                )
                &&& m.wf()
            },
            Err(e) => e == ScanError::Empty && spec_hour_map(
                entries@,
                supported_extensions.deep_view(),
                24,
                spec_min_hour(time_filter),
            ).len() == 0,
        },
{
    let ghost exts = supported_extensions.deep_view();
    let ghost min = spec_min_hour(time_filter);
    let min_hour: u8 = match time_filter {
        Some(f) => f,
        None => 0,
    };
    let mut buckets: Vec<(u8, Vec<WallpaperItem>)> = Vec::new();
    let mut h: u8 = 0;
    while h < 24
        invariant
            h <= 24,
            exts == supported_extensions.deep_view(),
            min == min_hour as int,
            Seq::new(buckets@.len(), |i: int| (buckets@[i].0, buckets@[i].1@))
                == spec_hour_map(entries@, exts, h as int, min),
        decreases 24 - h,
    {
        if h >= min_hour {
            let b = collect_hour_bucket(entries, supported_extensions, h);
            if b.len() > 0 {
                buckets.push((h, b));
            }
        }
        proof {
            assert(Seq::new(buckets@.len(), |i: int| (buckets@[i].0, buckets@[i].1@))
                =~= spec_hour_map(entries@, exts, h as int + 1, min));
        }
        h += 1;
    }
    if buckets.is_empty() {
        Err(ScanError::Empty)
    } else {
        let m = HourMap { buckets };
        proof {
            lemma_hour_map_wf(entries@, exts, 24, min);
            assert forall|i: int, j: int, k: int|
                0 <= i < m@.len() && 0 <= j < k < m@[i].1.len() && m@[i].1[j] is Entry
                implies m@[i].1[k] is Entry by {
                lemma_bucket_groups_before_entries(entries@, m@[i].0, exts);
            }
        }
        Ok(m)
    }
}

/// The smallest hour a filtered map keeps.
pub open spec fn spec_min_hour(time_filter: Option<u8>) -> int {
    match time_filter {
        Some(f) => f as int,
        None => 0,
    }
}

/// Collects the bucket of hour `h` from a listing: groups first, in listing
/// order, then supported files, in listing order.
fn collect_hour_bucket(entries: &Vec<ScanEntry>, supported_extensions: &Vec<String>, h: u8) -> (b:
    Vec<WallpaperItem>)
    ensures
        b@ == spec_hour_bucket(entries@, h, supported_extensions.deep_view()),
{
    let ghost exts = supported_extensions.deep_view();
    let mut groups: Vec<WallpaperItem> = Vec::new();
    let mut files: Vec<WallpaperItem> = Vec::new();
    let mut i: usize = 0;
    while i < entries.len()
        invariant
            i <= entries.len(),
            exts == supported_extensions.deep_view(),
            groups@ == spec_hour_groups(entries@.take(i as int), h),
            files@ == spec_hour_entries(entries@.take(i as int), h, exts),
        decreases entries.len() - i,
    {
        let e = &entries[i];
        proof {
            assert(entries@.take(i + 1).drop_last() =~= entries@.take(i as int));
            assert(entries@.take(i + 1).last() == entries@[i as int]);
        }
        let hour_matches = match parse_hour(e.stem.as_str()) {
            Some(v) => v == h,
            None => false,
        };
        if hour_matches {
            if matches!(e.kind, EntryKind::Directory) {
                groups.push(WallpaperItem::Group(e.path.clone()));
            } else if supported_file(e, supported_extensions) {
                files.push(WallpaperItem::Entry(e.path.clone()));
            }
        }
        i += 1;
    }
    proof {
        assert(entries@.take(entries@.len() as int) =~= entries@);
    }
    groups.append(&mut files);
    groups
}


/// Lexicographic order on character sequences, by code point; a proper
/// prefix comes before its extensions.  This is the order Rust strings sort
/// in.
pub open spec fn lex_lt(a: Seq<char>, b: Seq<char>) -> bool
    decreases a.len(),
{
    if a.len() == 0 {
        b.len() > 0
    } else if b.len() == 0 {
        false
    } else if (a[0] as int) < (b[0] as int) {
        true
    } else if (a[0] as int) > (b[0] as int) {
        false
    } else {
        lex_lt(a.drop_first(), b.drop_first())
    }
}

/// The lexicographic order is transitive.
pub proof fn lemma_lex_lt_trans(a: Seq<char>, b: Seq<char>, c: Seq<char>)
    requires
        lex_lt(a, b),
        lex_lt(b, c),
    ensures
        lex_lt(a, c),
    decreases a.len(),
{
    if a.len() > 0 && b.len() > 0 && c.len() > 0 {
        if (a[0] as int) == (b[0] as int) && (b[0] as int) == (c[0] as int) {
            lemma_lex_lt_trans(a.drop_first(), b.drop_first(), c.drop_first());
        }
    }
}

/// Two sequences neither of which comes before the other are equal: the
/// order is total.
pub proof fn lemma_lex_lt_connected(a: Seq<char>, b: Seq<char>)
    requires
        !lex_lt(a, b),
        !lex_lt(b, a),
    ensures
        a == b,
    decreases a.len(),
{
    if a.len() > 0 && b.len() > 0 {
        lemma_lex_lt_connected(a.drop_first(), b.drop_first());
        assert(a =~= b);
    } else {
        assert(a =~= b);
    }
}

/// When `a` and `b` agree on their first `i` characters, their order is
/// decided by what follows.
proof fn lemma_lex_lt_skip(a: Seq<char>, b: Seq<char>, i: int)
    requires
        0 <= i <= a.len(),
        i <= b.len(),
        forall|j: int| 0 <= j < i ==> a[j] == b[j],
    ensures
        lex_lt(a, b) == lex_lt(a.skip(i), b.skip(i)),
    decreases i,
{
    if i > 0 {
        assert(a.len() > 0 && b.len() > 0);
        assert(a[0] == b[0]);
        lemma_lex_lt_skip(a.drop_first(), b.drop_first(), i - 1);
        assert(a.drop_first().skip(i - 1) =~= a.skip(i));
        assert(b.drop_first().skip(i - 1) =~= b.skip(i));
    } else {
        assert(a.skip(0) =~= a);
        assert(b.skip(0) =~= b);
    }
}

/// Compares two strings in lexicographic order.
pub fn str_lt(a: &str, b: &str) -> (r: bool)
    ensures
        r == lex_lt(a@, b@),
{
    let na = a.unicode_len();
    let nb = b.unicode_len();
    let mut i: usize = 0;
    while i < na && i < nb
        invariant
            i <= na,
            i <= nb,
            na == a@.len(),
            nb == b@.len(),
            forall|j: int| 0 <= j < i ==> a@[j] == b@[j],
        decreases na - i,
    {
        let ca = a.get_char(i);
        let cb = b.get_char(i);
        if (ca as u32) < (cb as u32) {
            proof {
                lemma_lex_lt_skip(a@, b@, i as int);
            }
            return true;
        }
        if (ca as u32) > (cb as u32) {
            proof {
                lemma_lex_lt_skip(a@, b@, i as int);
            }
            return false;
        }
        proof {
            assert(a@[i as int] == b@[i as int]);
        }
        i += 1;
    }
    proof {
        lemma_lex_lt_skip(a@, b@, i as int);
    }
    na < nb
}


/// Whether a scanned entry yields an item of the name-keyed map: every
/// subdirectory does, and every supported file.
pub open spec fn produces_item(e: ScanEntry, exts: Seq<Seq<char>>) -> bool {
    e.kind is Directory || is_supported_file(e, exts)
}

/// The group items of name bucket `name`, in listing order.
pub open spec fn spec_special_groups(entries: Seq<ScanEntry>, name: Seq<char>) -> Seq<
    WallpaperItem,
>
    decreases entries.len(),
{
    if entries.len() == 0 {
        Seq::empty()
    } else {
        let rest = spec_special_groups(entries.drop_last(), name);
        let e = entries.last();
        if e.kind is Directory && e.stem@ == name {
            rest.push(WallpaperItem::Group(e.path))
        } else {
            rest
        }
    }
}

/// The entry items of name bucket `name`, in listing order.
pub open spec fn spec_special_entries(
    entries: Seq<ScanEntry>,
    name: Seq<char>,
    exts: Seq<Seq<char>>,
) -> Seq<WallpaperItem>
    decreases entries.len(),
{
    if entries.len() == 0 {
        Seq::empty()
    } else {
        let rest = spec_special_entries(entries.drop_last(), name, exts);
        let e = entries.last();
        if is_supported_file(e, exts) && e.stem@ == name {
            rest.push(WallpaperItem::Entry(e.path))
        } else {
            rest
        }
    }
}

/// The items of name bucket `name`: every group before every entry.
pub open spec fn spec_special_bucket(
    entries: Seq<ScanEntry>,
    name: Seq<char>,
    exts: Seq<Seq<char>>,
) -> Seq<WallpaperItem> {
    spec_special_groups(entries, name) + spec_special_entries(entries, name, exts)
}

/// Whether some entry of the listing yields an item under `name`.
pub open spec fn spec_has_special_name(
    entries: Seq<ScanEntry>,
    exts: Seq<Seq<char>>,
    name: Seq<char>,
) -> bool {
    exists|k: int|
        0 <= k < entries.len() && #[trigger] produces_item(entries[k], exts) && entries[k].stem@
            == name
}

/// A name that yields an item has a non-empty bucket.
proof fn lemma_special_bucket_nonempty(
    entries: Seq<ScanEntry>,
    name: Seq<char>,
    exts: Seq<Seq<char>>,
)
    requires
        spec_has_special_name(entries, exts, name),
    ensures
        spec_special_bucket(entries, name, exts).len() > 0,
    decreases entries.len(),
{
    let e = entries.last();
    if produces_item(e, exts) && e.stem@ == name {
    } else {
        assert(spec_has_special_name(entries.drop_last(), exts, name)) by {
            let k = choose|k: int|
                0 <= k < entries.len() && #[trigger] produces_item(entries[k], exts)
                    && entries[k].stem@ == name;
            assert(entries.drop_last()[k] == entries[k]);
            assert(produces_item(entries.drop_last()[k], exts));
        }
        lemma_special_bucket_nonempty(entries.drop_last(), name, exts);
    }
}

/// Every group-pass item of a name bucket is a group.
proof fn lemma_special_groups_are_groups(entries: Seq<ScanEntry>, name: Seq<char>)
    ensures
        forall|i: int|
            0 <= i < spec_special_groups(entries, name).len() ==> spec_special_groups(
                entries,
                name,
            )[i] is Group,
    decreases entries.len(),
{
    if entries.len() > 0 {
        lemma_special_groups_are_groups(entries.drop_last(), name);
    }
}

/// Every entry-pass item of a name bucket is an entry.
proof fn lemma_special_entries_are_entries(
    entries: Seq<ScanEntry>,
    name: Seq<char>,
    exts: Seq<Seq<char>>,
)
    ensures
        forall|i: int|
            0 <= i < spec_special_entries(entries, name, exts).len() ==> spec_special_entries(
                entries,
                name,
                exts,
            )[i] is Entry,
    decreases entries.len(),
{
    if entries.len() > 0 {
        lemma_special_entries_are_entries(entries.drop_last(), name, exts);
    }
}

/// However the listing is ordered, a name bucket places every group before
/// every entry.
pub proof fn lemma_special_bucket_groups_before_entries(
    entries: Seq<ScanEntry>,
    name: Seq<char>,
    exts: Seq<Seq<char>>,
)
    ensures
        forall|j: int, k: int|
            0 <= j < k < spec_special_bucket(entries, name, exts).len() && spec_special_bucket(
                entries,
                name,
                exts,
            )[j] is Entry ==> spec_special_bucket(entries, name, exts)[k] is Entry,
{
    lemma_special_groups_are_groups(entries, name);
    lemma_special_entries_are_entries(entries, name, exts);
}

/// A mapping from arbitrary bucket names to the items filed under each
/// name, with the keys in ascending lexicographic order.
pub struct SpecialMap {
    pub buckets: Vec<(String, Vec<WallpaperItem>)>,
}

impl View for SpecialMap {
    type V = Seq<(Seq<char>, Seq<WallpaperItem>)>;

    open spec fn view(&self) -> Seq<(Seq<char>, Seq<WallpaperItem>)> {
        Seq::new(self.buckets@.len(), |i: int| (self.buckets@[i].0@, self.buckets@[i].1@))
    }
}

impl SpecialMap {
    /// Keys strictly ascending in lexicographic order; no bucket empty;
    /// groups before entries within each bucket.
    pub open spec fn wf(self) -> bool {
        &&& forall|i: int, j: int|
            0 <= i < j < self@.len() ==> lex_lt(#[trigger] self@[i].0, #[trigger] self@[j].0)
        &&& forall|i: int| 0 <= i < self@.len() ==> self@[i].1.len() > 0
        &&& forall|i: int, j: int, k: int|
            0 <= i < self@.len() && 0 <= j < k < self@[i].1.len() && self@[i].1[j] is Entry
                ==> self@[i].1[k] is Entry
    }

    /// The bucket filed under `name`, if the map has one.
    pub fn get(&self, name: &String) -> (r: Option<&Vec<WallpaperItem>>)
        ensures
            match r {
                Some(v) => exists|i: int|
                    0 <= i < self@.len() && self@[i].0 == name@ && v@ == #[trigger] self@[i].1,
                None => forall|i: int| 0 <= i < self@.len() ==> self@[i].0 != name@,
            },
    {
        let mut i: usize = 0;
        while i < self.buckets.len()
            invariant
                i <= self.buckets@.len(),
                forall|j: int| 0 <= j < i ==> self@[j].0 != name@,
            decreases self.buckets@.len() - i,
        {
            let pair = &self.buckets[i];
            if pair.0.eq(name) {
                assert(self@[i as int].0 == name@ && pair.1@ == self@[i as int].1);
                return Some(&pair.1);
            }
            i += 1;
        }
        None
    }
}

/// Collects the bucket of `name` from a listing: groups first, in listing
/// order, then supported files, in listing order.
fn collect_special_bucket(entries: &Vec<ScanEntry>, supported_extensions: &Vec<String>, name: &String) -> (b:
    Vec<WallpaperItem>)
    ensures
        b@ == spec_special_bucket(entries@, name@, supported_extensions.deep_view()),
{
    let ghost exts = supported_extensions.deep_view();
    let mut groups: Vec<WallpaperItem> = Vec::new();
    let mut files: Vec<WallpaperItem> = Vec::new();
    let mut i: usize = 0;
    while i < entries.len()
        invariant
            i <= entries.len(),
            exts == supported_extensions.deep_view(),
            groups@ == spec_special_groups(entries@.take(i as int), name@),
            files@ == spec_special_entries(entries@.take(i as int), name@, exts),
        decreases entries.len() - i,
    {
        let e = &entries[i];
        proof {
            assert(entries@.take(i + 1).drop_last() =~= entries@.take(i as int));
            assert(entries@.take(i + 1).last() == entries@[i as int]);
        }
        if e.stem.eq(name) {
            if matches!(e.kind, EntryKind::Directory) {
                groups.push(WallpaperItem::Group(e.path.clone()));
            } else if supported_file(e, supported_extensions) {
                files.push(WallpaperItem::Entry(e.path.clone()));
            }
        }
        i += 1;
    }
    proof {
        assert(entries@.take(entries@.len() as int) =~= entries@);
    }
    groups.append(&mut files);
    groups
}


/// Whether some element of `s` views as `n`.
pub open spec fn key_present(s: Seq<String>, n: Seq<char>) -> bool {
    exists|i: int| 0 <= i < s.len() && (#[trigger] s[i])@ == n
}

/// Whether the keys are strictly ascending in lexicographic order.
pub open spec fn keys_sorted(s: Seq<String>) -> bool {
    forall|i: int, j: int| 0 <= i < j < s.len() ==> lex_lt((#[trigger] s[i])@, (#[trigger] s[j])@)
}

/// Inserts `stem` into the sorted key list, keeping it sorted and free of
/// duplicates.
fn insert_key(keys: &mut Vec<String>, stem: &String)
    requires
        keys_sorted(old(keys)@),
    ensures
        keys_sorted(final(keys)@),
        key_present(final(keys)@, stem@),
        forall|n: Seq<char>| key_present(old(keys)@, n) ==> key_present(final(keys)@, n),
        forall|t: int|
            0 <= t < final(keys)@.len() ==> (#[trigger] final(keys)@[t])@ == stem@ || key_present(
                old(keys)@,
                final(keys)@[t]@,
            ),
{
    if contains_str(keys, stem) {
        proof {
            let i = choose|i: int| 0 <= i < keys@.len() && keys.deep_view()[i] == stem@;
            assert(keys@[i]@ == stem@);
        }
        return ;
    }
    let ghost prior = keys@;
    let mut j: usize = 0;
    while j < keys.len()
        invariant_except_break
            j <= keys@.len(),
            keys@ == prior,
            forall|t: int| 0 <= t < j ==> lex_lt((#[trigger] keys@[t])@, stem@),
        ensures
            j <= keys@.len(),
            keys@ == prior,
            forall|t: int| 0 <= t < j ==> lex_lt((#[trigger] keys@[t])@, stem@),
            j < keys@.len() ==> !lex_lt(keys@[j as int]@, stem@),
        decreases keys@.len() - j,
    {
        if !str_lt(keys[j].as_str(), stem.as_str()) {
            break ;
        }
        j += 1;
    }
    proof {
        assert forall|t: int| j <= t < prior.len() implies lex_lt(stem@, (#[trigger] prior[t])@) by {
            assert(prior[j as int]@ != stem@) by {
                if keys.deep_view()[j as int] == stem@ {
                    assert(keys.deep_view().contains(stem@));
                }
            }
            if !lex_lt(stem@, prior[j as int]@) {
                lemma_lex_lt_connected(prior[j as int]@, stem@);
            }
            if t > j {
                lemma_lex_lt_trans(stem@, prior[j as int]@, prior[t]@);
            }
        }
    }
    keys.insert(j, stem.clone());
    proof {
        let cur = keys@;
        assert(cur[j as int]@ == stem@);
        assert(forall|t: int| 0 <= t < j ==> cur[t] == #[trigger] prior[t]);
        assert(forall|t: int| j < t < cur.len() ==> cur[t] == #[trigger] prior[t - 1]);
        assert forall|t1: int, t2: int| 0 <= t1 < t2 < cur.len() implies lex_lt(
            (#[trigger] cur[t1])@,
            (#[trigger] cur[t2])@,
        ) by {
            if t1 < j && t2 == j {
            } else if t1 == j && t2 > j {
            } else if t1 < j && t2 > j {
                lemma_lex_lt_trans(cur[t1]@, stem@, cur[t2]@);
            }
        }
        assert forall|n: Seq<char>| key_present(prior, n) implies key_present(cur, n) by {
            let i = choose|i: int| 0 <= i < prior.len() && (#[trigger] prior[i])@ == n;
            if i < j {
                assert(cur[i]@ == n);
            } else {
                assert(cur[i + 1]@ == n);
            }
        }
    }
}

/// One entry of the listing never loses its bucket as the scan extends.
proof fn lemma_has_name_extend(
    entries: Seq<ScanEntry>,
    exts: Seq<Seq<char>>,
    i: int,
    n: Seq<char>,
)
    requires
        0 <= i < entries.len(),
        spec_has_special_name(entries.take(i), exts, n),
    ensures
        spec_has_special_name(entries.take(i + 1), exts, n),
{
    let k = choose|k: int|
        0 <= k < entries.take(i).len() && #[trigger] produces_item(entries.take(i)[k], exts)
            && entries.take(i)[k].stem@ == n;
    assert(entries.take(i + 1)[k] == entries.take(i)[k]);
    assert(produces_item(entries.take(i + 1)[k], exts));
}

/// Indexes a directory listing into the name-keyed bucket map of the
/// override collection.
///
/// Any base name becomes a bucket key — the file extension is stripped by
/// the scan — and the keys are kept in ascending lexicographic order.
/// Subdirectories become groups, supported files become entries, and within
/// each bucket all groups precede all entries.  An empty map is an error,
/// which the caller treats as "no override available".
pub fn get_special_items(entries: &Vec<ScanEntry>, supported_extensions: &Vec<String>) -> (r:
    Result<SpecialMap, ScanError>)
    ensures
        match r {
            Ok(m) => {
                &&& m.wf()
                &&& forall|t: int|
                    0 <= t < m@.len() ==> #[trigger] m@[t].1 == spec_special_bucket(
                        entries@,
                        m@[t].0,
                        supported_extensions.deep_view(),
                    )
                &&& forall|t: int|
                    0 <= t < m@.len() ==> spec_has_special_name(
                        entries@,
                        supported_extensions.deep_view(),
                        #[trigger] m@[t].0,
                    )
                &&& forall|k: int|
                    0 <= k < entries@.len() && #[trigger] produces_item(
                        entries@[k],
                        supported_extensions.deep_view(),
                    ) ==> exists|t: int| 0 <= t < m@.len() && #[trigger] m@[t].0 == entries@[k].stem@
                &&& m@.len() > 0
            },
            Err(e) => {
                &&& e == ScanError::Empty
                &&& forall|k: int|
                    0 <= k < entries@.len() ==> !produces_item(
                        #[trigger] entries@[k],
                        supported_extensions.deep_view(),
                    )
            },
        },
{
    let ghost exts = supported_extensions.deep_view();
    let mut keys: Vec<String> = Vec::new();
    let mut i: usize = 0;
    while i < entries.len()
        invariant
            i <= entries.len(),
            exts == supported_extensions.deep_view(),
            keys_sorted(keys@),
            forall|t: int|
                0 <= t < keys@.len() ==> spec_has_special_name(
                    entries@.take(i as int),
                    exts,
                    (#[trigger] keys@[t])@,
                ),
            forall|k: int|
                0 <= k < i && produces_item(#[trigger] entries@[k], exts) ==> key_present(
                    keys@,
                    entries@[k].stem@,
                ),
        decreases entries.len() - i,
    {
        let e = &entries[i];
        let ghost before = keys@;
        let produces = matches!(e.kind, EntryKind::Directory) || supported_file(
            e,
            supported_extensions,
        );
        if produces {
            insert_key(&mut keys, &e.stem);
        }
        proof {
            assert(entries@.take(i + 1)[i as int] == entries@[i as int]);
            if produces {
                assert(produces_item(entries@.take(i + 1)[i as int], exts));
                assert(spec_has_special_name(entries@.take(i + 1), exts, e.stem@));
            }
            assert forall|t: int| 0 <= t < keys@.len() implies spec_has_special_name(
                entries@.take(i + 1),
                exts,
                (#[trigger] keys@[t])@,
            ) by {
                if keys@[t]@ != e.stem@ || !produces {
                    assert(key_present(before, keys@[t]@));
                    let u = choose|u: int| 0 <= u < before.len() && (#[trigger] before[u])@
                        == keys@[t]@;
                    lemma_has_name_extend(entries@, exts, i as int, before[u]@);
                }
            }
        }
        i += 1;
    }
    proof {
        assert(entries@.take(entries@.len() as int) =~= entries@);
    }
    if keys.is_empty() {
        return Err(ScanError::Empty);
    }
    let mut buckets: Vec<(String, Vec<WallpaperItem>)> = Vec::new();
    let mut t: usize = 0;
    while t < keys.len()
        invariant
            t <= keys@.len(),
            exts == supported_extensions.deep_view(),
            keys_sorted(keys@),
            forall|u: int|
                0 <= u < keys@.len() ==> spec_has_special_name(entries@, exts, (#[trigger] keys@[u])@),
            buckets@.len() == t,
            forall|u: int| 0 <= u < t ==> (#[trigger] buckets@[u]).0 == keys@[u],
            forall|u: int|
                0 <= u < t ==> (#[trigger] buckets@[u]).1@ == spec_special_bucket(
                    entries@,
                    keys@[u]@,
                    exts,
                ),
        decreases keys@.len() - t,
    {
        let key = keys[t].clone();
        let b = collect_special_bucket(entries, supported_extensions, &key);
        buckets.push((key, b));
        t += 1;
    }
    let m = SpecialMap { buckets };
    proof {
        assert forall|u: int| 0 <= u < m@.len() implies #[trigger] m@[u].1.len() > 0 by {
            lemma_special_bucket_nonempty(entries@, m@[u].0, exts);
        }
        assert forall|u: int, j: int, k: int|
            0 <= u < m@.len() && 0 <= j < k < m@[u].1.len() && m@[u].1[j] is Entry
            implies m@[u].1[k] is Entry by {
            lemma_special_bucket_groups_before_entries(entries@, m@[u].0, exts);
        }
        assert forall|k: int|
            0 <= k < entries@.len() && #[trigger] produces_item(entries@[k], exts)
            implies exists|u: int| 0 <= u < m@.len() && #[trigger] m@[u].0 == entries@[k].stem@ by {
            assert(key_present(keys@, entries@[k].stem@));
            let u = choose|u: int| 0 <= u < keys@.len() && (#[trigger] keys@[u])@
                == entries@[k].stem@;
            assert(m@[u].0 == entries@[k].stem@);
        }
    }
    Ok(m)
}


/// Relies on `<[String]>::sort`: sorts the strings in place into ascending
/// order — for strings that is lexicographic order by byte, which for UTF-8
/// coincides with lexicographic order by code point — keeping exactly the
/// same strings.
#[verifier::external_body]
fn sort_paths(v: &mut Vec<String>)
    ensures
        final(v)@.to_multiset() == old(v)@.to_multiset(),
        forall|i: int, j: int|
            0 <= i < j < final(v)@.len() ==> !lex_lt(
                (#[trigger] final(v)@[j])@,
                (#[trigger] final(v)@[i])@,
            ),
{
    v.sort();
}

/// Relies on `rand::random_range`: an index drawn uniformly below `n`; the
/// call panics on an empty range, so `n` must be positive.  Nothing beyond
/// the bound can be promised of a random value.
#[verifier::external_body]
pub(crate) fn random_below(n: usize) -> (r: usize)
    requires
        n >= 1,
    ensures
        r < n,
{
    rand::random_range(0..n)
}

/// Copies a list of paths.
fn clone_paths(v: &Vec<String>) -> (out: Vec<String>)
    ensures
        out@ == v@,
{
    let mut out: Vec<String> = Vec::new();
    let mut i: usize = 0;
    while i < v.len()
        invariant
            i <= v@.len(),
            out@ == v@.take(i as int),
        decreases v@.len() - i,
    {
        out.push(v[i].clone());
        proof {
            assert(out@ =~= v@.take(i + 1));
        }
        i += 1;
    }
    proof {
        assert(v@.take(v@.len() as int) =~= v@);
    }
    out
}

/// Whether an item can satisfy the selection, given what a listing of its
/// directory yielded: a single file always can; a group only if its listing
/// succeeded and found at least one usable file.
pub open spec fn selectable(item: WallpaperItem, listing: Option<Vec<String>>) -> bool {
    match item {
        WallpaperItem::Entry(_) => true,
        WallpaperItem::Group(_) => listing is Some && listing.unwrap()@.len() > 0,
    }
}

/// The position of the first selectable item, or the length of the list if
/// none is selectable.
pub open spec fn spec_first_selectable(
    items: Seq<WallpaperItem>,
    listings: Seq<Option<Vec<String>>>,
) -> int
    decreases items.len(),
{
    if items.len() == 0 {
        0
    } else if selectable(items[0], listings[0]) {
        0
    } else {
        1 + spec_first_selectable(items.drop_first(), listings.drop_first())
    }
}

/// The first selectable position is exactly the first position that is
/// selectable.
pub proof fn lemma_first_selectable_at(
    items: Seq<WallpaperItem>,
    listings: Seq<Option<Vec<String>>>,
    j: int,
)
    requires
        items.len() == listings.len(),
        0 <= j <= items.len(),
        forall|t: int| 0 <= t < j ==> !selectable(#[trigger] items[t], listings[t]),
        j < items.len() ==> selectable(items[j], listings[j]),
    ensures
        spec_first_selectable(items, listings) == j,
    decreases items.len(),
{
    if items.len() > 0 && j > 0 {
        assert(!selectable(items[0], listings[0]));
        assert forall|t: int| 0 <= t < j - 1 implies !selectable(
            #[trigger] items.drop_first()[t],
            listings.drop_first()[t],
        ) by {
            assert(items[t + 1] == items.drop_first()[t]);
        }
        lemma_first_selectable_at(items.drop_first(), listings.drop_first(), j - 1);
    }
}

/// Resolves a bucket to the concrete candidate paths.
///
/// Items are tried in stored order — groups first, by the bucket invariant.
/// `group_listings` pairs each item with what listing its directory
/// yielded, where that applies: for the group at position `i`,
/// `group_listings[i]` holds its usable files, or `None` if the listing
/// failed or found nothing.  The first group with a non-empty listing wins
/// and yields its files sorted for determinism; a group that cannot deliver
/// is skipped rather than failing the resolution.  Failing any group, the
/// first single entry yields itself.  An empty result means "nothing
/// available this cycle", which is not an error.
pub fn select_wallpaper_item(
    entry_vector: &Vec<WallpaperItem>,
    group_listings: &Vec<Option<Vec<String>>>,
) -> (r: Vec<String>)
    requires
        entry_vector@.len() == group_listings@.len(),
    ensures
        ({
            let j = spec_first_selectable(entry_vector@, group_listings@);
            if j == entry_vector@.len() {
                r@.len() == 0
            } else {
                match entry_vector@[j] {
                    WallpaperItem::Entry(p) => r@ == seq![p],
                    WallpaperItem::Group(_) => {
                        &&& r@.to_multiset() == group_listings@[j].unwrap()@.to_multiset()
                        &&& r@.len() > 0
                        &&& forall|a: int, b: int|
                            0 <= a < b < r@.len() ==> !lex_lt((#[trigger] r@[b])@, (#[trigger] r@[a])@)
                    },
                }
            }
        }),
{
    let ghost items = entry_vector@;
    let ghost listings = group_listings@;
    let mut i: usize = 0;
    while i < entry_vector.len()
        invariant
            entry_vector@ == items,
            group_listings@ == listings,
            items.len() == listings.len(),
            i <= items.len(),
            forall|t: int| 0 <= t < i ==> !selectable(#[trigger] items[t], listings[t]),
        decreases items.len() - i,
    {
        let item = &entry_vector[i];
        match item {
            WallpaperItem::Group(_) => {
                if let Some(listing) = &group_listings[i] {
                    if listing.len() > 0 {
                        proof {
                            lemma_first_selectable_at(items, listings, i as int);
                        }
                        let mut out = clone_paths(listing);
                        sort_paths(&mut out);
                        proof {
                            listing@.to_multiset_ensures();
                            out@.to_multiset_ensures();
                        }
                        return out;
                    }
                }
            },
            WallpaperItem::Entry(_) => {
                proof {
                    lemma_first_selectable_at(items, listings, i as int);
                }
                let mut out: Vec<String> = Vec::new();
                match item {
                    WallpaperItem::Entry(p) => out.push(p.clone()),
                    WallpaperItem::Group(_) => (),
                }
                proof {
                    assert(out@ =~= seq![items[i as int]->Entry_0]);
                }
                return out;
            },
        }
        i += 1;
    }
    proof {
        lemma_first_selectable_at(items, listings, items.len() as int);
    }
    Vec::new()
}

/// The position of the item that satisfies the selection — the first
/// selectable one — or nothing when no item can.  The caller consults the
/// winning group's own configuration, and only it, for overrides.
pub fn first_selectable_index(
    entry_vector: &Vec<WallpaperItem>,
    group_listings: &Vec<Option<Vec<String>>>,
) -> (r: Option<usize>)
    requires
        entry_vector@.len() == group_listings@.len(),
    ensures
        ({
            let j = spec_first_selectable(entry_vector@, group_listings@);
            if j == entry_vector@.len() {
                r is None
            } else {
                r == Some(j as usize)
            }
        }),
{
    let mut i: usize = 0;
    while i < entry_vector.len()
        invariant
            entry_vector@.len() == group_listings@.len(),
            i <= entry_vector@.len(),
            forall|t: int|
                0 <= t < i ==> !selectable(#[trigger] entry_vector@[t], group_listings@[t]),
        decreases entry_vector@.len() - i,
    {
        let hit = match &entry_vector[i] {
            WallpaperItem::Entry(_) => true,
            WallpaperItem::Group(_) => match &group_listings[i] {
                Some(listing) => listing.len() > 0,
                None => false,
            },
        };
        if hit {
            proof {
                lemma_first_selectable_at(entry_vector@, group_listings@, i as int);
            }
            return Some(i);
        }
        i += 1;
    }
    proof {
        lemma_first_selectable_at(entry_vector@, group_listings@, entry_vector@.len() as int);
    }
    None
}

/// Selects one wallpaper of a group's listing at random.
///
/// Returns the chosen path, its position, and how many candidates there
/// were; nothing can be selected from an empty listing.
pub fn select_random_entry(sub_entries: &Vec<String>) -> (r: Option<(String, usize, usize)>)
    ensures
        (r is None) <==> sub_entries@.len() == 0,
        r is Some ==> {
            &&& r.unwrap().1 < sub_entries@.len()
            &&& r.unwrap().0 == sub_entries@[r.unwrap().1 as int]
            &&& r.unwrap().2 == sub_entries@.len()
        },
{
    if sub_entries.is_empty() {
        return None;
    }
    let idx = random_below(sub_entries.len());
    Some((sub_entries[idx].clone(), idx, sub_entries.len()))
}

} // verus!
