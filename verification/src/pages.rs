//! The pages and file-transfer rules of the HTTP side: the configuration
//! script put into the index page, directory listings, upload names and
//! static asset paths.
use vstd::prelude::*;
use vstd::string::StringExecFns;
use crate::text::{trim_start_char, trim_start_spec, chars_of, concat, contains, ends_with, find, has_suffix, occurs_at, occurs_in, string_from, string_of};

verus! {

/// `true` or `false`, as the page script spells it.
pub open spec fn bool_text(b: bool) -> Seq<char> {
    if b {
        "true"@
    } else {
        "false"@
    }
}

/// The script that tells the page which file transfers are enabled.
pub open spec fn config_script(upload: bool, download: bool) -> Seq<char> {
    "<script>window.SHARETTY_CONFIG = { upload: "@ + bool_text(upload) + ", download: "@
        + bool_text(download) + " };</script>"@
}

fn bool_string(b: bool) -> (s: String)
    ensures
        s@ == bool_text(b),
{
    if b {
        string_from("true")
    } else {
        string_from("false")
    }
}

/// The script that tells the page which file transfers are enabled.
pub fn config_script_text(upload: bool, download: bool) -> (s: String)
    ensures
        s@ == config_script(upload, download),
{
    let mut s = string_from("<script>window.SHARETTY_CONFIG = { upload: ");
    s.append(bool_string(upload).as_str());
    s.append(", download: ");
    s.append(bool_string(download).as_str());
    s.append(" };</script>");
    s
}

/// The index page with the configuration script put just before the first
/// `</head>`, or at the end where there is none.
pub open spec fn index_page(html: Seq<char>, upload: bool, download: bool) -> Seq<char> {
    let script = config_script(upload, download);
    if occurs_in(html, "</head>"@) {
        let pos = choose|i: int|
            occurs_at(html, "</head>"@, i) && forall|j: int|
                0 <= j < i ==> !occurs_at(html, "</head>"@, j);
        html.take(pos) + script + html.skip(pos)
    } else {
        html + script
    }
}

/// The characters `v[from..to]` as a string.
fn substring(v: &Vec<char>, from: usize, to: usize) -> (s: String)
    requires
        from <= to <= v@.len(),
    ensures
        s@ == v@.subrange(from as int, to as int),
{
    let mut out: Vec<char> = Vec::new();
    let mut j: usize = from;
    while j < to
        invariant
            from <= j <= to <= v@.len(),
            out@ == v@.subrange(from as int, j as int),
        decreases to - j,
    {
        out.push(v[j]);
        assert(v@.subrange(from as int, j + 1) == v@.subrange(from as int, j as int).push(
            v@[j as int],
        ));
        j = j + 1;
    }
    string_of(out.as_slice())
}

/// The index page served to a viewer: the page with the configuration
/// script in its head.
pub fn index_page_text(html: &str, upload: bool, download: bool) -> (page: String)
    ensures
        page@ == index_page(html@, upload, download),
{
    let script = config_script_text(upload, download);
    match find(html, "</head>") {
        Some(pos) => {
            let v = chars_of(html);
            let mut page = substring(&v, 0, pos);
            page.append(script.as_str());
            let tail = substring(&v, pos, v.len());
            page.append(tail.as_str());
            proof {
                let p = choose|i: int|
                    occurs_at(html@, "</head>"@, i) && forall|j: int|
                        0 <= j < i ==> !occurs_at(html@, "</head>"@, j);
                assert(occurs_at(html@, "</head>"@, pos as int));
                assert(p == pos as int) by {
                    if p < pos {
                    } else if p > pos {
                    }
                }
                assert(v@.subrange(0, pos as int) == html@.take(pos as int));
                assert(v@.subrange(pos as int, v@.len() as int) == html@.skip(pos as int));
            }
            page
        },
        None => {
            let page = string_from(html);
            page.concat(script.as_str())
        },
    }
}

/// The page that answers when the index page is missing.
pub fn index_missing() -> (s: String)
    ensures
        s@ == "Index not found"@,
{
    string_from("Index not found")
}

/// The upload form.
pub open spec fn upload_form() -> Seq<char> {
    "\n        <!doctype html>\n        <title>Upload File</title>\n        <h1>Upload File</h1>\n        <form action=\"\" method=\"post\" enctype=\"multipart/form-data\">\n            <p><input type=\"file\" name=\"file\" multiple></p>\n            <p><input type=\"submit\" value=\"Upload\"></p>\n        </form>\n    "@
}

/// The upload form page.
pub fn upload_form_page() -> (s: String)
    ensures
        s@ == upload_form(),
{
    string_from(
        "\n        <!doctype html>\n        <title>Upload File</title>\n        <h1>Upload File</h1>\n        <form action=\"\" method=\"post\" enctype=\"multipart/form-data\">\n            <p><input type=\"file\" name=\"file\" multiple></p>\n            <p><input type=\"submit\" value=\"Upload\"></p>\n        </form>\n    ",
    )
}

/// Whether a requested download path may be served: it must not hold `..`.
/// Nothing else is refused; in particular a path starting with `/` is
/// admitted.
pub fn download_path_allowed(req_path: &str) -> (ok: bool)
    ensures
        ok == !occurs_in(req_path@, ".."@),
{
    !contains(req_path, "..")
}

/// Where the first `/`-separated segment of `p` ends: at the first `/`, or
/// at the end where there is none.
pub open spec fn first_segment_end(p: Seq<char>) -> int
    decreases p.len(),
{
    if p.len() == 0 {
        0
    } else if p[0] == '/' {
        0
    } else {
        1 + first_segment_end(p.drop_first())
    }
}

/// Whether resolving the relative path `p` segment by segment, starting
/// `depth` levels below a base directory, ever climbs above that base: a
/// `..` segment goes up one level, an empty or `.` segment stays, any other
/// segment goes down one.
pub open spec fn climbs_above(p: Seq<char>, depth: int) -> bool
    decreases p.len(),
{
    let k = first_segment_end(p);
    let seg = p.take(k);
    let d = if seg == ".."@ {
        depth - 1
    } else if seg.len() == 0 || seg == "."@ {
        depth
    } else {
        depth + 1
    };
    if d < 0 {
        true
    } else if 0 <= k < p.len() {
        climbs_above(p.skip(k + 1), d)
    } else {
        false
    }
}

proof fn lemma_first_segment_end_bounds(p: Seq<char>)
    ensures
        0 <= first_segment_end(p) <= p.len(),
        first_segment_end(p) < p.len() ==> p[first_segment_end(p)] == '/',
    decreases p.len(),
{
    if p.len() > 0 && p[0] != '/' {
        lemma_first_segment_end_bounds(p.drop_first());
    }
}

proof fn lemma_no_dots_never_climbs(p: Seq<char>, depth: int)
    requires
        depth >= 0,
        !occurs_in(p, ".."@),
    ensures
        !climbs_above(p, depth),
    decreases p.len(),
{
    reveal_strlit("..");
    lemma_first_segment_end_bounds(p);
    let k = first_segment_end(p);
    let seg = p.take(k);
    if seg == ".."@ {
        assert(occurs_at(p, ".."@, 0));
    }
    let d = if seg.len() == 0 || seg == "."@ { depth } else { depth + 1 };
    if 0 <= k < p.len() {
        let rest = p.skip(k + 1);
        assert(!occurs_in(rest, ".."@)) by {
            if occurs_in(rest, ".."@) {
                let i = choose|i: int| occurs_at(rest, ".."@, i);
                assert(p.subrange(i + k + 1, i + k + 3) =~= rest.subrange(i, i + 2));
                assert(occurs_at(p, ".."@, i + k + 1));
            }
        }
        lemma_no_dots_never_climbs(rest, d);
    }
}

/// A requested download path that is admitted never leaves the download
/// directory, provided it is relative and plain: resolved segment by
/// segment under the directory, it never climbs above it. (A path starting
/// with `/` is admitted too, and joined to the directory it replaces it, so
/// such paths are outside this statement.)
pub proof fn lemma_admitted_download_stays_inside(req_path: Seq<char>)
    requires
        !occurs_in(req_path, ".."@),
        !(req_path.len() > 0 && req_path[0] == '/'),
        plain_path(req_path),
    ensures
        !climbs_above(req_path, 0),
{
    lemma_no_dots_never_climbs(req_path, 0);
}

/// Where a request for a directory without a trailing slash is sent: the
/// same path with a slash; `None` where the path already ends with one.
pub fn directory_redirect(uri_path: &str) -> (target: Option<String>)
    ensures
        has_suffix(uri_path@, "/"@) <==> target is None,
        target matches Some(t) ==> t@ == uri_path@ + "/"@,
{
    if ends_with(uri_path, "/") {
        None
    } else {
        Some(concat(uri_path, "/"))
    }
}

/// An entry of a listed directory: the bytes of its name as the file
/// system holds them (the sort key), its name as text, and whether it is a
/// directory.
pub struct DirEntry {
    pub key: Vec<u8>,
    pub name: String,
    pub is_dir: bool,
}

pub struct DirEntryView {
    pub key: Seq<u8>,
    pub name: Seq<char>,
    pub is_dir: bool,
}

impl View for DirEntry {
    type V = DirEntryView;

    open spec fn view(&self) -> DirEntryView {
        DirEntryView { key: self.key@, name: self.name@, is_dir: self.is_dir }
    }
}

/// The views of a sequence of entries.
pub open spec fn entries_view(es: Seq<DirEntry>) -> Seq<DirEntryView> {
    es.map_values(|e: DirEntry| e@)
}

/// The lexicographic order of byte strings, which orders file names.
pub open spec fn key_le(a: Seq<u8>, b: Seq<u8>) -> bool
    decreases a.len(),
{
    if a.len() == 0 {
        true
    } else if b.len() == 0 {
        false
    } else if a[0] < b[0] {
        true
    } else if a[0] > b[0] {
        false
    } else {
        key_le(a.drop_first(), b.drop_first())
    }
}

/// Any two byte strings are ordered one way or the other.
pub proof fn lemma_key_le_total(a: Seq<u8>, b: Seq<u8>)
    ensures
        key_le(a, b) || key_le(b, a),
    decreases a.len(),
{
    if a.len() > 0 && b.len() > 0 && a[0] == b[0] {
        lemma_key_le_total(a.drop_first(), b.drop_first());
    }
}

/// The order of byte strings is transitive.
pub proof fn lemma_key_le_transitive(a: Seq<u8>, b: Seq<u8>, c: Seq<u8>)
    requires
        key_le(a, b),
        key_le(b, c),
    ensures
        key_le(a, c),
    decreases a.len(),
{
    if a.len() > 0 && b.len() > 0 && c.len() > 0 && a[0] == b[0] && b[0] == c[0] {
        lemma_key_le_transitive(a.drop_first(), b.drop_first(), c.drop_first());
    }
}

/// Whether `a` comes no later than `b` in byte order.
pub fn key_le_exec(a: &[u8], b: &[u8]) -> (r: bool)
    ensures
        r == key_le(a@, b@),
{
    let mut i: usize = 0;
    assert(a@.skip(0) == a@ && b@.skip(0) == b@);
    while i < a.len() && i < b.len()
        invariant
            i <= a@.len(),
            i <= b@.len(),
            key_le(a@, b@) == key_le(a@.skip(i as int), b@.skip(i as int)),
        decreases a@.len() - i,
    {
        assert(a@.skip(i as int)[0] == a@[i as int]);
        assert(b@.skip(i as int)[0] == b@[i as int]);
        if a[i] < b[i] {
            return true;
        }
        if a[i] > b[i] {
            return false;
        }
        assert(a@.skip(i as int).drop_first() == a@.skip(i + 1));
        assert(b@.skip(i as int).drop_first() == b@.skip(i + 1));
        i = i + 1;
    }
    if i == a.len() {
        assert(a@.skip(i as int).len() == 0);
        true
    } else {
        assert(b@.skip(i as int).len() == 0);
        false
    }
}

/// Whether entries are in byte order of their names.
pub open spec fn sorted_by_key(es: Seq<DirEntryView>) -> bool {
    forall|i: int, j: int| 0 <= i < j < es.len() ==> key_le(es[i].key, es[j].key)
}

/// The same entries, in byte order of their names.
pub fn sort_entries(entries: Vec<DirEntry>) -> (sorted: Vec<DirEntry>)
    ensures
        sorted_by_key(entries_view(sorted@)),
        entries_view(sorted@).to_multiset() == entries_view(entries@).to_multiset(),
{
    broadcast use vstd::seq_lib::group_to_multiset_ensures;
    broadcast use vstd::multiset::group_multiset_axioms;

    let mut sorted: Vec<DirEntry> = Vec::new();
    let mut rest = entries;
    let ghost all = entries_view(entries@);
    assert(entries_view(rest@) == all);
    assert(entries_view(sorted@) =~= Seq::<DirEntryView>::empty());
    while rest.len() > 0
        invariant
            sorted_by_key(entries_view(sorted@)),
            entries_view(sorted@).to_multiset().add(entries_view(rest@).to_multiset())
                == all.to_multiset(),
        decreases rest@.len(),
    {
        let ghost rest_before = entries_view(rest@);
        let e = rest.remove(0);
        let ghost ev = e@;
        proof {
            assert(entries_view(rest@) =~= rest_before.remove(0));
            assert(ev == rest_before[0]);
            vstd::seq_lib::to_multiset_remove(rest_before, 0);
        }
        let ghost before = entries_view(sorted@);
        let mut p: usize = 0;
        while p < sorted.len() && key_le_exec(sorted[p].key.as_slice(), e.key.as_slice())
            invariant
                p <= sorted@.len(),
                before == entries_view(sorted@),
                ev == e@,
                forall|k: int| 0 <= k < p ==> key_le(before[k].key, ev.key),
            decreases sorted@.len() - p,
        {
            assert(before[p as int] == sorted@[p as int]@);
            p = p + 1;
        }
        proof {
            if p < sorted@.len() {
                assert(!key_le(before[p as int].key, ev.key));
                lemma_key_le_total(before[p as int].key, ev.key);
                assert forall|k: int| p <= k < before.len() implies key_le(
                    ev.key,
                    #[trigger] before[k].key,
                ) by {
                    if k > p {
                        lemma_key_le_transitive(ev.key, before[p as int].key, before[k].key);
                    }
                }
            }
        }
        sorted.insert(p, e);
        proof {
            let after = entries_view(sorted@);
            assert(after =~= before.insert(p as int, ev));
            assert forall|i: int, j: int| 0 <= i < j < after.len() implies key_le(
                after[i].key,
                after[j].key,
            ) by {
                if j < p {
                } else if j == p {
                } else if i < p {
                    lemma_key_le_transitive(after[i].key, ev.key, after[j].key);
                } else if i == p {
                } else {
                }
            }
            vstd::seq_lib::to_multiset_insert(before, p as int, ev);
            assert(rest_before.contains(ev)) by {
                assert(rest_before[0] == ev);
            }
            vstd::seq_lib::to_multiset_contains(rest_before, ev);
            assert(after.to_multiset().add(entries_view(rest@).to_multiset()) =~= before.to_multiset().add(
                rest_before.to_multiset(),
            ));
        }
    }
    proof {
        assert(entries_view(rest@) =~= Seq::<DirEntryView>::empty());
    }
    sorted
}

/// The name an entry is shown under: directories get a trailing slash.
pub open spec fn display_name(e: DirEntryView) -> Seq<char> {
    if e.is_dir {
        e.name + "/"@
    } else {
        e.name
    }
}

/// The list item of one entry, linking to its name.
pub open spec fn entry_item(e: DirEntryView) -> Seq<char> {
    "<li><a href=\""@ + e.name + "\">"@ + display_name(e) + "</a></li>"@
}

/// The list items of the entries, in order.
pub open spec fn entry_items(es: Seq<DirEntryView>) -> Seq<char>
    decreases es.len(),
{
    if es.len() == 0 {
        Seq::empty()
    } else {
        entry_items(es.drop_last()) + entry_item(es.last())
    }
}

/// The head of a listing page for the path `req_path` below the download
/// directory, with a link to the parent unless the path is the root.
pub open spec fn listing_head(req_path: Seq<char>) -> Seq<char> {
    "<!doctype html><html><head><title>Index of /"@ + req_path
        + "</title></head><body><h1>Index of /"@ + req_path + "</h1><hr><ul>"@ + if req_path.len()
        == 0 {
        Seq::empty()
    } else {
        "<li><a href=\"..\">..</a></li>"@
    }
}

/// The listing page of a directory whose entries are given in order.
pub open spec fn listing_page(req_path: Seq<char>, es: Seq<DirEntryView>) -> Seq<char> {
    listing_head(req_path) + entry_items(es) + "</ul><hr></body></html>"@
}

fn entry_item_text(e: &DirEntry) -> (s: String)
    ensures
        s@ == entry_item(e@),
{
    let mut s = string_from("<li><a href=\"");
    s.append(e.name.as_str());
    s.append("\">");
    s.append(e.name.as_str());
    if e.is_dir {
        s.append("/");
    }
    s.append("</a></li>");
    s
}

/// The listing page of a directory, its entries given in the order shown.
pub fn listing_page_text(req_path: &str, entries: &Vec<DirEntry>) -> (page: String)
    ensures
        page@ == listing_page(req_path@, entries_view(entries@)),
{
    let mut page = string_from("<!doctype html><html><head><title>Index of /");
    page.append(req_path);
    page.append("</title></head><body><h1>Index of /");
    page.append(req_path);
    page.append("</h1><hr><ul>");
    if !req_path.is_empty() {
        page.append("<li><a href=\"..\">..</a></li>");
    }
    let ghost head = page@;
    assert(head == listing_head(req_path@));
    let ghost es = entries_view(entries@);
    let mut i: usize = 0;
    while i < entries.len()
        invariant
            i <= entries@.len(),
            es == entries_view(entries@),
            page@ == head + entry_items(es.take(i as int)),
        decreases entries@.len() - i,
    {
        let item = entry_item_text(&entries[i]);
        page.append(item.as_str());
        assert(es.take(i + 1).drop_last() == es.take(i as int));
        assert(es.take(i + 1).last() == entries@[i as int]@);
        i = i + 1;
    }
    assert(es.take(entries@.len() as int) == es);
    page.append("</ul><hr></body></html>");
    page
}

/// The listing page of a directory: its entries sorted by name, then shown.
pub fn directory_listing(req_path: &str, entries: Vec<DirEntry>) -> (page: String)
    ensures
        exists|shown: Seq<DirEntryView>|
            sorted_by_key(shown) && shown.to_multiset() == entries_view(entries@).to_multiset()
                && page@ == listing_page(req_path@, shown),
{
    let sorted = sort_entries(entries);
    let page = listing_page_text(req_path, &sorted);
    assert(sorted_by_key(entries_view(sorted@)));
    page
}

/// Every byte string comes no later than itself.
pub proof fn lemma_key_le_reflexive(a: Seq<u8>)
    ensures
        key_le(a, a),
    decreases a.len(),
{
    if a.len() > 0 {
        lemma_key_le_reflexive(a.drop_first());
    }
}

/// The order of byte strings is antisymmetric.
pub proof fn lemma_key_le_antisymmetric(a: Seq<u8>, b: Seq<u8>)
    requires
        key_le(a, b),
        key_le(b, a),
    ensures
        a == b,
    decreases a.len(),
{
    if a.len() > 0 && b.len() > 0 {
        lemma_key_le_antisymmetric(a.drop_first(), b.drop_first());
        assert(a == seq![a[0]] + a.drop_first());
        assert(b == seq![b[0]] + b.drop_first());
    }
}

/// Whether no two entries have the same name.
pub open spec fn distinct_keys(es: Seq<DirEntryView>) -> bool {
    forall|i: int, j: int| 0 <= i < j < es.len() ==> es[i].key != es[j].key
}

/// Entries with distinct names have one order by name: the listing of a
/// directory does not depend on the order in which its entries were read.
pub proof fn lemma_sorted_entries_unique(x: Seq<DirEntryView>, y: Seq<DirEntryView>)
    requires
        sorted_by_key(x),
        sorted_by_key(y),
        distinct_keys(x),
        x.to_multiset() == y.to_multiset(),
    ensures
        x == y,
    decreases x.len(),
{
    broadcast use vstd::seq_lib::group_to_multiset_ensures;
    broadcast use vstd::multiset::group_multiset_axioms;

    vstd::seq_lib::to_multiset_len(x);
    vstd::seq_lib::to_multiset_len(y);
    if x.len() == 0 || y.len() == 0 {
        assert(x.len() == y.len());
        assert(x =~= y);
    } else {
        assert(x.to_multiset().count(y[0]) > 0);
        assert(y.to_multiset().count(x[0]) > 0);
        assert(x.contains(y[0]));
        assert(y.contains(x[0]));
        let i = choose|i: int| 0 <= i < x.len() && x[i] == y[0];
        let j = choose|j: int| 0 <= j < y.len() && y[j] == x[0];
        lemma_key_le_reflexive(x[0].key);
        lemma_key_le_reflexive(y[0].key);
        if i > 0 {
            assert(key_le(x[0].key, x[i].key));
        }
        if j > 0 {
            assert(key_le(y[0].key, y[j].key));
        }
        lemma_key_le_antisymmetric(x[0].key, y[0].key);
        assert(x[i].key == x[0].key);
        assert(i == 0);
        assert(x[0] == y[0]);
        let xs = x.drop_first();
        let ys = y.drop_first();
        assert(x == seq![x[0]] + xs);
        assert(y == seq![y[0]] + ys);
        assert(x.remove(0) == xs);
        assert(y.remove(0) == ys);
        vstd::seq_lib::to_multiset_remove(x, 0);
        vstd::seq_lib::to_multiset_remove(y, 0);
        assert(xs.to_multiset() == ys.to_multiset());
        assert(sorted_by_key(xs)) by {
            assert forall|a: int, b: int| 0 <= a < b < xs.len() implies key_le(xs[a].key, xs[b].key) by {
                assert(xs[a] == x[a + 1] && xs[b] == x[b + 1]);
            }
        }
        assert(sorted_by_key(ys)) by {
            assert forall|a: int, b: int| 0 <= a < b < ys.len() implies key_le(ys[a].key, ys[b].key) by {
                assert(ys[a] == y[a + 1] && ys[b] == y[b + 1]);
            }
        }
        assert(distinct_keys(xs)) by {
            assert forall|a: int, b: int| 0 <= a < b < xs.len() implies xs[a].key != xs[b].key by {
                assert(xs[a] == x[a + 1] && xs[b] == x[b + 1]);
            }
        }
        lemma_sorted_entries_unique(xs, ys);
    }
}

/// Where the last `/`-separated segment of `s` starts: just after the last
/// `/`, or at 0 where there is none.
pub open spec fn last_segment_start(s: Seq<char>) -> int
    decreases s.len(),
{
    if s.len() == 0 {
        0
    } else if s.last() == '/' {
        s.len() as int
    } else {
        last_segment_start(s.drop_last())
    }
}

/// The final component of a path written with `/` separators: repeated and
/// trailing separators and `.` components are passed over, and there is
/// none where the path ends in `..` or has no component left.
pub open spec fn file_name_spec(s: Seq<char>) -> Option<Seq<char>>
    decreases s.len(),
{
    let k = last_segment_start(s);
    let t = s.skip(k);
    if t.len() == 0 || t == "."@ {
        if 0 < k <= s.len() {
            file_name_spec(s.take(k - 1))
        } else {
            None
        }
    } else if t == ".."@ {
        None
    } else {
        Some(t)
    }
}

/// A path that every platform splits the same way: no `\`, which is a
/// separator on some, no `:`, which starts a drive prefix on some, and no
/// leading `//`, which starts a network prefix on some.
pub open spec fn plain_path(s: Seq<char>) -> bool {
    !s.contains('\\') && !s.contains(':') && !(s.len() >= 2 && s[0] == '/' && s[1] == '/')
}

/// `std::path::Path::file_name` on a name given as text (the `Path` and the
/// text it gives back are the same characters, seen as a path). On a plain
/// path the result is the final component that `file_name_spec` describes,
/// as the documentation of `Path::components` and `Path::file_name`
/// describes it; on other paths the platform decides how the name is split,
/// and only the shape of the result is stated: never empty, no `/`, neither
/// `.` nor `..`.
#[verifier::external_body]
fn final_component(name: &str) -> (c: Option<String>)
    ensures
        c matches Some(s) ==> s@.len() > 0 && !s@.contains('/') && s@ != "."@ && s@ != ".."@,
        plain_path(name@) ==> match c {
            Some(s) => file_name_spec(name@) == Some(s@),
            None => file_name_spec(name@) is None,
        },
{
    match std::path::Path::new(name).file_name() {
        Some(n) => n.to_str().map(String::from),
        None => None,
    }
}

/// The name an uploaded file is saved under: the last component of the
/// name the client gave, or `unknown` where it has none.
pub fn upload_file_name(client_name: &str) -> (name: String)
    ensures
        name@.len() > 0,
        !name@.contains('/'),
        name@ != "."@,
        name@ != ".."@,
        plain_path(client_name@) ==> name@ == match file_name_spec(client_name@) {
            Some(s) => s,
            None => "unknown"@,
        },
{
    match final_component(client_name) {
        Some(n) => n,
        None => {
            let n = string_from("unknown");
            proof {
                reveal_strlit("unknown");
                reveal_strlit(".");
                reveal_strlit("..");
                assert(n@.len() == 7);
                assert(!n@.contains('/')) by {
                    assert forall|i: int| 0 <= i < n@.len() implies n@[i] != '/' by {}
                }
            }
            n
        },
    }
}

/// The MIME type that `mime_guess` gives a path by its extension, with
/// `application/octet-stream` where it knows none.
pub uninterp spec fn mime_type_of(path: Seq<char>) -> Seq<char>;

/// `mime_guess::from_path(path).first_or_octet_stream()`, as text; its result
/// is named [`mime_type_of`].
#[verifier::external_body]
fn guess_mime(path: &str) -> (m: String)
    ensures
        m@ == mime_type_of(path@),
{
    mime_guess::from_path(path).first_or_octet_stream().as_ref().to_string()
}

/// The asset looked up for a request path: the path without its leading
/// slashes.
pub fn static_asset_path(uri_path: &str) -> (p: String)
    ensures
        p@ == trim_start_spec(uri_path@, '/'),
{
    trim_start_char(uri_path, '/')
}

/// The content type an asset is served with.
pub fn static_content_type(asset_path: &str) -> (m: String)
    ensures
        m@ == mime_type_of(asset_path@),
{
    guess_mime(asset_path)
}

} // verus!
