//! What the browser shows for a directory: `..` unless it is the root, then
//! the sub-directories, then the wallpaper files, each group sorted by name.
use vstd::prelude::*;
use vstd::relations::{sorted_by, total_ordering};
use crate::config::{is_wallpaper_path, Config};
use crate::path::{
    body_components, components, ends_in_parent_dir, has_root, is_entry_name, join, join_path,
    lemma_join_stays_within, path_eq, path_equals, scan, segment_components, starts_with,
    starts_with_cur_dir, Component,
};
use crate::text::{chars_of, push_char};

verus! {

/// One entry of a directory as the file system reports it.
pub struct DirEntry {
    /// The entry's file name.
    pub name: String,
    /// Whether the entry is a directory (following symbolic links).
    pub is_dir: bool,
}

/// The strings held by a sequence of strings.
pub open spec fn string_views(v: Seq<String>) -> Seq<Seq<char>> {
    v.map_values(|s: String| s@)
}

/// Every entry of a listing has a name `read_dir` can yield.
pub open spec fn entries_wf(es: Seq<DirEntry>) -> bool {
    forall|i: int| 0 <= i < es.len() ==> is_entry_name(#[trigger] es[i].name@)
}

/// The order of names: character by character by code point, a proper
/// prefix first. On UTF-8 this is the byte order in which std compares the
/// paths of entries of one directory.
pub open spec fn name_le(a: Seq<char>, b: Seq<char>) -> bool
    decreases a.len(),
{
    if a.len() == 0 {
        true
    } else if b.len() == 0 {
        false
    } else if a[0] != b[0] {
        a[0] < b[0]
    } else {
        name_le(a.drop_first(), b.drop_first())
    }
}

/// `name_le` as a relation.
pub open spec fn name_order() -> spec_fn(Seq<char>, Seq<char>) -> bool {
    |a: Seq<char>, b: Seq<char>| name_le(a, b)
}

/// A sequence of names in name order.
pub open spec fn sort_names(names: Seq<Seq<char>>) -> Seq<Seq<char>> {
    names.sort_by(name_order())
}

/// The names of the entries that are directories, in listing order.
pub open spec fn dir_names(es: Seq<DirEntry>) -> Seq<Seq<char>>
    decreases es.len(),
{
    if es.len() == 0 {
        seq![]
    } else {
        dir_names(es.drop_last()) + if es.last().is_dir {
            seq![es.last().name@]
        } else {
            seq![]
        }
    }
}

/// The names of the entries that are files the browser can set as
/// wallpaper, in listing order.
pub open spec fn file_names(dir: Seq<char>, es: Seq<DirEntry>) -> Seq<Seq<char>>
    decreases es.len(),
{
    if es.len() == 0 {
        seq![]
    } else {
        file_names(dir, es.drop_last()) + if !es.last().is_dir && is_wallpaper_path(
            join(dir, es.last().name@),
        ) {
            seq![es.last().name@]
        } else {
            seq![]
        }
    }
}

/// Each name joined onto `dir`.
pub open spec fn joined(dir: Seq<char>, names: Seq<Seq<char>>) -> Seq<Seq<char>> {
    names.map_values(|n: Seq<char>| join(dir, n))
}

/// The entry that leads to the parent directory.
pub open spec fn up_entry() -> Seq<char> {
    seq!['.', '.']
}

/// The listing shown for `dir`, given what reading it returned (`None` when
/// it could not be read).
pub open spec fn listing_spec(
    dir: Seq<char>,
    root: Seq<char>,
    listing: Option<Seq<DirEntry>>,
) -> Seq<Seq<char>> {
    let up = if path_eq(dir, root) {
        seq![]
    } else {
        seq![up_entry()]
    };
    match listing {
        Some(es) => up + joined(dir, sort_names(dir_names(es))) + joined(
            dir,
            sort_names(file_names(dir, es)),
        ),
        None => up,
    }
}

/// The entries of a run-time listing.
pub open spec fn listing_view(listing: &Option<Vec<DirEntry>>) -> Option<Seq<DirEntry>> {
    match listing {
        Some(v) => Some(v@),
        None => None,
    }
}

proof fn lemma_name_le_reflexive(a: Seq<char>)
    ensures
        name_le(a, a),
    decreases a.len(),
{
    if a.len() > 0 {
        lemma_name_le_reflexive(a.drop_first());
    }
}

proof fn lemma_name_le_antisymmetric(a: Seq<char>, b: Seq<char>)
    requires
        name_le(a, b),
        name_le(b, a),
    ensures
        a == b,
    decreases a.len(),
{
    if a.len() == 0 {
        assert(b.len() == 0);
        assert(a =~= b);
    } else {
        assert(b.len() > 0);
        assert(a[0] == b[0]);
        lemma_name_le_antisymmetric(a.drop_first(), b.drop_first());
        assert(a =~= seq![a[0]] + a.drop_first());
        assert(b =~= seq![b[0]] + b.drop_first());
    }
}

proof fn lemma_name_le_transitive(a: Seq<char>, b: Seq<char>, c: Seq<char>)
    requires
        name_le(a, b),
        name_le(b, c),
    ensures
        name_le(a, c),
    decreases a.len(),
{
    if a.len() > 0 && b.len() > 0 && c.len() > 0 && a[0] == b[0] && b[0] == c[0] {
        lemma_name_le_transitive(a.drop_first(), b.drop_first(), c.drop_first());
    }
}

proof fn lemma_name_le_total(a: Seq<char>, b: Seq<char>)
    ensures
        name_le(a, b) || name_le(b, a),
    decreases a.len(),
{
    if a.len() > 0 && b.len() > 0 && a[0] == b[0] {
        lemma_name_le_total(a.drop_first(), b.drop_first());
    }
}

/// The order of names is a total order.
pub proof fn law_name_order_is_total()
    ensures
        total_ordering(name_order()),
{
    let r = name_order();
    assert forall|x: Seq<char>| #[trigger] r(x, x) by {
        lemma_name_le_reflexive(x);
    }
    assert forall|x: Seq<char>, y: Seq<char>| #[trigger] r(x, y) && #[trigger] r(y, x) implies x
        == y by {
        lemma_name_le_antisymmetric(x, y);
    }
    assert forall|x: Seq<char>, y: Seq<char>, z: Seq<char>| #[trigger] r(x, y) && #[trigger] r(
        y,
        z,
    ) implies r(x, z) by {
        lemma_name_le_transitive(x, y, z);
    }
    assert forall|x: Seq<char>, y: Seq<char>| #[trigger] r(x, y) || #[trigger] r(y, x) by {
        lemma_name_le_total(x, y);
    }
}

/// Sorting names gives them in name order, each as often as before.
pub proof fn law_sorted_names(names: Seq<Seq<char>>)
    ensures
        sorted_by(sort_names(names), name_order()),
        sort_names(names).to_multiset() == names.to_multiset(),
{
    law_name_order_is_total();
    names.lemma_sort_by_ensures(name_order());
}

/// The `..` entry leads to the parent directory.
pub proof fn lemma_up_entry_ends_in_parent_dir()
    ensures
        ends_in_parent_dir(up_entry()),
{
    let p = up_entry();
    assert(!has_root(p));
    assert(!starts_with_cur_dir(p));
    assert(p.subrange(0, p.len() as int) =~= p);
    assert(p.drop_last() =~= seq!['.']);
    assert(seq!['.'].drop_last() =~= Seq::<char>::empty());
    assert(scan(Seq::<char>::empty()) == (Seq::<Component>::empty(), Seq::<char>::empty()));
    assert(scan(seq!['.']).1 =~= seq!['.']);
    assert(scan(seq!['.']).0 =~= Seq::<Component>::empty());
    assert(scan(p).1 =~= p);
    assert(scan(p).0 =~= Seq::<Component>::empty());
    assert(segment_components(p) =~= seq![Component::ParentDir]);
    assert(body_components(p) =~= seq![Component::ParentDir]);
    assert(components(p) =~= seq![Component::ParentDir]);
}

proof fn lemma_dir_names_are_entry_names(es: Seq<DirEntry>)
    requires
        entries_wf(es),
    ensures
        forall|k: int| 0 <= k < dir_names(es).len() ==> is_entry_name(#[trigger] dir_names(es)[k]),
    decreases es.len(),
{
    if es.len() > 0 {
        let rest = es.drop_last();
        assert(entries_wf(rest)) by {
            assert forall|i: int| 0 <= i < rest.len() implies is_entry_name(
                #[trigger] rest[i].name@,
            ) by {
                assert(rest[i] == es[i]);
            }
        }
        lemma_dir_names_are_entry_names(rest);
        assert(is_entry_name(es[es.len() - 1].name@));
        let d = dir_names(es);
        let dr = dir_names(rest);
        assert forall|k: int| 0 <= k < d.len() implies is_entry_name(#[trigger] d[k]) by {
            if k < dr.len() {
                assert(d[k] == dr[k]);
            } else {
                assert(d[k] == es.last().name@);
            }
        }
    }
}

proof fn lemma_file_names_are_entry_names(dir: Seq<char>, es: Seq<DirEntry>)
    requires
        entries_wf(es),
    ensures
        forall|k: int|
            0 <= k < file_names(dir, es).len() ==> is_entry_name(#[trigger] file_names(dir, es)[k]),
    decreases es.len(),
{
    if es.len() > 0 {
        let rest = es.drop_last();
        assert(entries_wf(rest)) by {
            assert forall|i: int| 0 <= i < rest.len() implies is_entry_name(
                #[trigger] rest[i].name@,
            ) by {
                assert(rest[i] == es[i]);
            }
        }
        lemma_file_names_are_entry_names(dir, rest);
        assert(is_entry_name(es[es.len() - 1].name@));
        let d = file_names(dir, es);
        let dr = file_names(dir, rest);
        assert forall|k: int| 0 <= k < d.len() implies is_entry_name(#[trigger] d[k]) by {
            if k < dr.len() {
                assert(d[k] == dr[k]);
            } else {
                assert(d[k] == es.last().name@);
            }
        }
    }
}

proof fn lemma_sorted_keeps_entry_names(names: Seq<Seq<char>>)
    requires
        forall|k: int| 0 <= k < names.len() ==> is_entry_name(#[trigger] names[k]),
    ensures
        forall|k: int|
            0 <= k < sort_names(names).len() ==> is_entry_name(#[trigger] sort_names(names)[k]),
{
    law_sorted_names(names);
    let sorted = sort_names(names);
    assert forall|k: int| 0 <= k < sorted.len() implies is_entry_name(#[trigger] sorted[k]) by {
        broadcast use vstd::seq_lib::group_to_multiset_ensures;

        assert(sorted.contains(sorted[k]));
        assert(sorted.to_multiset().count(sorted[k]) > 0);
        assert(names.to_multiset().count(sorted[k]) > 0);
        assert(names.contains(sorted[k]));
        let i = choose|i: int| 0 <= i < names.len() && names[i] == sorted[k];
        assert(is_entry_name(names[i]));
    }
}

proof fn lemma_joined_within(dir: Seq<char>, root: Seq<char>, names: Seq<Seq<char>>)
    requires
        starts_with(dir, root),
        forall|k: int| 0 <= k < names.len() ==> is_entry_name(#[trigger] names[k]),
    ensures
        forall|k: int|
            0 <= k < joined(dir, names).len() ==> starts_with(#[trigger] joined(dir, names)[k], root),
{
    assert forall|k: int| 0 <= k < joined(dir, names).len() implies starts_with(
        #[trigger] joined(dir, names)[k],
        root,
    ) by {
        assert(is_entry_name(names[k]));
        lemma_join_stays_within(dir, names[k], root);
    }
}

/// Every entry of a listing of a directory inside `root` is either the `..`
/// entry or a path inside `root`.
pub proof fn lemma_listing_stays_within(
    dir: Seq<char>,
    root: Seq<char>,
    listing: Option<Seq<DirEntry>>,
)
    requires
        starts_with(dir, root),
        listing matches Some(es) ==> entries_wf(es),
    ensures
        forall|k: int|
            0 <= k < listing_spec(dir, root, listing).len() ==> ends_in_parent_dir(
                #[trigger] listing_spec(dir, root, listing)[k],
            ) || starts_with(listing_spec(dir, root, listing)[k], root),
{
    lemma_up_entry_ends_in_parent_dir();
    let l = listing_spec(dir, root, listing);
    let up = if path_eq(dir, root) {
        Seq::<Seq<char>>::empty()
    } else {
        seq![up_entry()]
    };
    match listing {
        Some(es) => {
            lemma_dir_names_are_entry_names(es);
            lemma_file_names_are_entry_names(dir, es);
            lemma_sorted_keeps_entry_names(dir_names(es));
            lemma_sorted_keeps_entry_names(file_names(dir, es));
            let a = joined(dir, sort_names(dir_names(es)));
            let b = joined(dir, sort_names(file_names(dir, es)));
            lemma_joined_within(dir, root, sort_names(dir_names(es)));
            lemma_joined_within(dir, root, sort_names(file_names(dir, es)));
            assert forall|k: int| 0 <= k < l.len() implies ends_in_parent_dir(#[trigger] l[k])
                || starts_with(l[k], root) by {
                if k < up.len() {
                    assert(l[k] == up_entry());
                } else if k < up.len() + a.len() {
                    assert(l[k] == a[k - up.len()]);
                } else {
                    assert(l[k] == b[k - up.len() - a.len()]);
                }
            }
        },
        None => {
            assert forall|k: int| 0 <= k < l.len() implies ends_in_parent_dir(#[trigger] l[k])
                || starts_with(l[k], root) by {
                assert(l[k] == up_entry());
            }
        },
    }
}

/// The name of an entry that is a directory.
pub open spec fn as_directory() -> spec_fn(DirEntry) -> Option<Seq<char>> {
    |e: DirEntry|
        if e.is_dir {
            Some(e.name@)
        } else {
            None
        }
}

/// The name of an entry of `dir` that is a file the browser can set as
/// wallpaper (an image or a `.madesktop` file).
pub open spec fn as_wallpaper(dir: Seq<char>) -> spec_fn(DirEntry) -> Option<Seq<char>> {
    |e: DirEntry|
        if !e.is_dir && is_wallpaper_path(join(dir, e.name@)) {
            Some(e.name@)
        } else {
            None
        }
}

proof fn lemma_dir_names_select(es: Seq<DirEntry>)
    ensures
        dir_names(es) == es.filter_map(as_directory()),
    decreases es.len(),
{
    if es.len() > 0 {
        let rest = es.drop_last();
        lemma_dir_names_select(rest);
        if !es.last().is_dir {
            assert(dir_names(rest) + Seq::<Seq<char>>::empty() =~= dir_names(rest));
        }
    }
}

proof fn lemma_file_names_select(dir: Seq<char>, es: Seq<DirEntry>)
    ensures
        file_names(dir, es) == es.filter_map(as_wallpaper(dir)),
    decreases es.len(),
{
    if es.len() > 0 {
        let rest = es.drop_last();
        lemma_file_names_select(dir, rest);
        if !(!es.last().is_dir && is_wallpaper_path(join(dir, es.last().name@))) {
            assert(file_names(dir, rest) + Seq::<Seq<char>>::empty() =~= file_names(dir, rest));
        }
    }
}

/// A listing of a directory that could be read is `..` (unless the
/// directory is the root), then the directory's sub-directories, then its
/// wallpaper files, each entry's name joined onto the directory. Each of the
/// two groups is sorted in name order and holds each entry of its kind
/// exactly as often as the directory does.
pub proof fn law_listing_groups(dir: Seq<char>, root: Seq<char>, es: Seq<DirEntry>)
    ensures
        exists|ds: Seq<Seq<char>>, fs: Seq<Seq<char>>|
            {
                &&& listing_spec(dir, root, Some(es)) == (if path_eq(dir, root) {
                    Seq::<Seq<char>>::empty()
                } else {
                    seq![seq!['.', '.']]
                }) + ds.map_values(|n: Seq<char>| join(dir, n)) + fs.map_values(
                    |n: Seq<char>| join(dir, n),
                )
                &&& sorted_by(ds, name_order())
                &&& sorted_by(fs, name_order())
                &&& ds.to_multiset() == es.filter_map(as_directory()).to_multiset()
                &&& fs.to_multiset() == es.filter_map(as_wallpaper(dir)).to_multiset()
            },
{
    lemma_dir_names_select(es);
    lemma_file_names_select(dir, es);
    law_sorted_names(dir_names(es));
    law_sorted_names(file_names(dir, es));
    let ds = sort_names(dir_names(es));
    let fs = sort_names(file_names(dir, es));
    assert(joined(dir, ds) =~= ds.map_values(|n: Seq<char>| join(dir, n)));
    assert(joined(dir, fs) =~= fs.map_values(|n: Seq<char>| join(dir, n)));
    assert(up_entry() == seq!['.', '.']);
}

/// Without a readable directory the listing holds only `..`, and nothing at
/// the root.
pub proof fn law_unreadable_listing(dir: Seq<char>, root: Seq<char>)
    ensures
        listing_spec(dir, root, None) == if path_eq(dir, root) {
            Seq::<Seq<char>>::empty()
        } else {
            seq![seq!['.', '.']]
        },
{
}

/// Whether `a` comes before or equals `b` in name order.
pub fn name_less_or_equal(a: &str, b: &str) -> (r: bool)
    ensures
        r == name_le(a@, b@),
{
    let x = chars_of(a);
    let y = chars_of(b);
    let mut i: usize = 0;
    assert(x@.subrange(0, x@.len() as int) =~= x@);
    assert(y@.subrange(0, y@.len() as int) =~= y@);
    while i < x.len() && i < y.len() && x[i] == y[i]
        invariant
            i <= x@.len(),
            i <= y@.len(),
            name_le(x@, y@) == name_le(x@.subrange(i as int, x@.len() as int), y@.subrange(i as int, y@.len() as int)),
        decreases x.len() - i,
    {
        let ghost xs = x@.subrange(i as int, x@.len() as int);
        let ghost ys = y@.subrange(i as int, y@.len() as int);
        assert(xs.drop_first() =~= x@.subrange(i + 1, x@.len() as int));
        assert(ys.drop_first() =~= y@.subrange(i + 1, y@.len() as int));
        i += 1;
    }
    let ghost xs = x@.subrange(i as int, x@.len() as int);
    let ghost ys = y@.subrange(i as int, y@.len() as int);
    if i == x.len() {
        true
    } else if i == y.len() {
        false
    } else {
        assert(xs[0] == x@[i as int] && ys[0] == y@[i as int]);
        x[i] < y[i]
    }
}

/// Sorts names into name order.
pub fn sorted_names(names: Vec<String>) -> (r: Vec<String>)
    ensures
        string_views(r@) == sort_names(string_views(names@)),
{
    let ghost ord = name_order();
    proof {
        law_name_order_is_total();
    }
    let mut r: Vec<String> = Vec::new();
    let mut i: usize = 0;
    assert(string_views(r@) =~= string_views(names@).take(0));
    while i < names.len()
        invariant
            i <= names@.len(),
            total_ordering(ord),
            ord == name_order(),
            sorted_by(string_views(r@), ord),
            string_views(r@).to_multiset() == string_views(names@).take(i as int).to_multiset(),
        decreases names.len() - i,
    {
        let x = names[i].clone();
        let mut j: usize = 0;
        while j < r.len() && name_less_or_equal(r[j].as_str(), x.as_str())
            invariant
                j <= r@.len(),
                forall|k: int| 0 <= k < j ==> name_le(#[trigger] r@[k]@, x@),
            decreases r.len() - j,
        {
            j += 1;
        }
        let ghost before = string_views(r@);
        proof {
            if j < r@.len() {
                assert(!name_le(r@[j as int]@, x@));
                lemma_name_le_total(r@[j as int]@, x@);
            }
        }
        r.insert(j, x);
        let ghost after = string_views(r@);
        assert(after =~= before.insert(j as int, x@));
        assert(sorted_by(after, ord)) by {
            assert forall|a: int, b: int| 0 <= a < b < after.len() implies #[trigger] ord(
                after[a],
                after[b],
            ) by {
                if a < j && b < j {
                    assert(ord(before[a], before[b]));
                } else if a < j && b == j {
                    assert(after[a] == r@[a]@);
                } else if a < j {
                    assert(ord(before[a], before[b - 1]));
                } else if a == j {
                    assert(name_le(x@, before[j as int]));
                    assert(ord(before[j as int], before[b - 1])) by {
                        if b - 1 > j {
                            assert(ord(before[j as int], before[b - 1]));
                        } else {
                            lemma_name_le_reflexive(before[j as int]);
                        }
                    }
                    lemma_name_le_transitive(x@, before[j as int], before[b - 1]);
                } else {
                    assert(ord(before[a - 1], before[b - 1]));
                }
            }
        }
        proof {
            vstd::seq_lib::to_multiset_insert(before, j as int, x@);
            vstd::seq_lib::to_multiset_build(string_views(names@).take(i as int), x@);
            assert(string_views(names@).take(i + 1) =~= string_views(names@).take(i as int).push(
                x@,
            ));
        }
        i += 1;
    }
    proof {
        assert(string_views(names@).take(i as int) =~= string_views(names@));
        law_sorted_names(string_views(names@));
        vstd::seq_lib::lemma_sorted_unique(
            string_views(r@),
            sort_names(string_views(names@)),
            ord,
        );
    }
    r
}

fn up_entry_string() -> (r: String)
    ensures
        r@ == up_entry(),
{
    let mut s = String::new();
    push_char(&mut s, '.');
    push_char(&mut s, '.');
    assert(s@ =~= up_entry());
    s
}

fn append_joined(items: &mut Vec<String>, dir: &str, names: &Vec<String>)
    ensures
        string_views(final(items)@) == string_views(old(items)@) + joined(
            dir@,
            string_views(names@),
        ),
{
    let ghost start = string_views(items@);
    let mut i: usize = 0;
    while i < names.len()
        invariant
            i <= names@.len(),
            string_views(items@) == start + joined(dir@, string_views(names@).take(i as int)),
        decreases names.len() - i,
    {
        let p = join_path(dir, names[i].as_str());
        let ghost prev = string_views(items@);
        items.push(p);
        assert(string_views(items@) =~= prev.push(join(dir@, names@[i as int]@)));
        assert(joined(dir@, string_views(names@).take(i + 1)) =~= joined(
            dir@,
            string_views(names@).take(i as int),
        ).push(join(dir@, names@[i as int]@)));
        assert(string_views(items@) =~= start + joined(dir@, string_views(names@).take(i + 1)));
        i += 1;
    }
    assert(string_views(names@).take(i as int) =~= string_views(names@));
}

/// The listing shown for `path`: `..` unless `path` is the root, then the
/// sub-directories and the wallpaper files of `listing`, each group sorted
/// by name and joined onto `path`. With no listing (the directory could not
/// be read) only `..` is shown.
pub fn list_directory(
    path: &str,
    root_dir: &str,
    config: &Config,
    listing: &Option<Vec<DirEntry>>,
) -> (r: Vec<String>)
    requires
        listing matches Some(es) ==> entries_wf(es@),
    ensures
        string_views(r@) == listing_spec(path@, root_dir@, listing_view(listing)),
{
    let mut items: Vec<String> = Vec::new();
    if !path_equals(path, root_dir) {
        items.push(up_entry_string());
    }
    let ghost up = string_views(items@);
    assert(up =~= if path_eq(path@, root_dir@) {
        seq![]
    } else {
        seq![up_entry()]
    });
    match listing {
        Some(entries) => {
            let mut dirs: Vec<String> = Vec::new();
            let mut files: Vec<String> = Vec::new();
            let mut i: usize = 0;
            while i < entries.len()
                invariant
                    i <= entries@.len(),
                    string_views(dirs@) == dir_names(entries@.take(i as int)),
                    string_views(files@) == file_names(path@, entries@.take(i as int)),
                decreases entries.len() - i,
            {
                let e = &entries[i];
                assert(entries@.take(i + 1).drop_last() =~= entries@.take(i as int));
                if e.is_dir {
                    dirs.push(e.name.clone());
                } else {
                    let full = join_path(path, e.name.as_str());
                    if config.is_valid_wallpaper(full.as_str()) {
                        files.push(e.name.clone());
                    }
                }
                assert(string_views(dirs@) =~= dir_names(entries@.take(i + 1)));
                assert(string_views(files@) =~= file_names(path@, entries@.take(i + 1)));
                i += 1;
            }
            assert(entries@.take(i as int) =~= entries@);
            let dirs = sorted_names(dirs);
            let files = sorted_names(files);
            append_joined(&mut items, path, &dirs);
            append_joined(&mut items, path, &files);
        },
        None => {},
    }
    items
}

} // verus!
