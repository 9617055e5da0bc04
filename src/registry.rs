//! The `profiles.ini` registry: a line-oriented state machine that collects one
//! record per `[Profile...]` section and resolves each to a profile directory.

use vstd::prelude::*;
use crate::paths::{join_path, joined};
use crate::text::{
    has_char, has_prefix, is_white, lemma_lines_join, lemma_lines_unbroken, lemma_single_line,
    lemma_trimmed_shape, lines_of, starts_with, string_of, trim_bounds, trim_end, trim_start,
    trimmed,
};

verus! {

/// A discovered profile: the browser it belongs to, its name, and its absolute
/// root directory.
pub struct BrowserProfile {
    pub browser_name: String,
    pub profile_name: String,
    pub root_directory: String,
}

pub struct ProfileView {
    pub browser_name: Seq<char>,
    pub profile_name: Seq<char>,
    pub root_directory: Seq<char>,
}

impl View for BrowserProfile {
    type V = ProfileView;

    open spec fn view(&self) -> ProfileView {
        ProfileView {
            browser_name: self.browser_name@,
            profile_name: self.profile_name@,
            root_directory: self.root_directory@,
        }
    }
}

/// The keys gathered so far for one section of the registry.
pub struct ProfileRecord {
    pub name: String,
    pub raw_path: String,
    pub is_relative: bool,
}

pub struct RecordView {
    pub name: Seq<char>,
    pub raw_path: Seq<char>,
    pub is_relative: bool,
}

impl View for ProfileRecord {
    type V = RecordView;

    open spec fn view(&self) -> RecordView {
        RecordView { name: self.name@, raw_path: self.raw_path@, is_relative: self.is_relative }
    }
}

impl ProfileRecord {
    /// A record with no keys seen.
    pub fn new() -> (r: ProfileRecord)
        ensures
            r@ == empty_record(),
    {
        ProfileRecord { name: String::new(), raw_path: String::new(), is_relative: false }
    }
}

pub open spec fn views(v: Seq<BrowserProfile>) -> Seq<ProfileView> {
    v.map_values(|p: BrowserProfile| p@)
}

pub open spec fn empty_record() -> RecordView {
    RecordView { name: Seq::empty(), raw_path: Seq::empty(), is_relative: false }
}

/// A line that opens a new section.
pub open spec fn is_section_marker(t: Seq<char>) -> bool {
    starts_with(t, "[Profile"@)
}

/// The record after reading the trimmed line `t`, which opens no section.
pub open spec fn apply_key(r: RecordView, t: Seq<char>) -> RecordView {
    if starts_with(t, "Name="@) {
        RecordView { name: t.skip("Name="@.len() as int), ..r }
    } else if starts_with(t, "Path="@) {
        RecordView { raw_path: t.skip("Path="@.len() as int), ..r }
    } else if starts_with(t, "IsRelative="@) {
        RecordView { is_relative: t.skip("IsRelative="@.len() as int).contains('1'), ..r }
    } else {
        r
    }
}

/// Reading `lines` in order: the records of the sections closed so far, and the
/// record still open.
pub open spec fn scan(lines: Seq<Seq<char>>) -> (Seq<RecordView>, RecordView)
    decreases lines.len(),
{
    if lines.len() == 0 {
        (Seq::empty(), empty_record())
    } else {
        let (closed, open) = scan(lines.drop_last());
        let t = trimmed(lines.last());
        if is_section_marker(t) {
            (closed.push(open), empty_record())
        } else {
            (closed, apply_key(open, t))
        }
    }
}

/// Every record of `content`, the one before the first marker included.
pub open spec fn sections_of(content: Seq<char>) -> Seq<RecordView> {
    let (closed, open) = scan(lines_of(content));
    closed.push(open)
}

pub open spec fn is_complete(r: RecordView) -> bool {
    r.name.len() > 0 && r.raw_path.len() > 0
}

/// Where the profile of `r` lives.
pub open spec fn root_of(r: RecordView, base: Seq<char>) -> Seq<char> {
    if r.is_relative {
        joined(base, r.raw_path)
    } else {
        r.raw_path
    }
}

pub open spec fn resolve(r: RecordView, base: Seq<char>, label: Seq<char>) -> ProfileView {
    ProfileView { browser_name: label, profile_name: r.name, root_directory: root_of(r, base) }
}

/// What closing the record `r` contributes: its profile if it is complete.
pub open spec fn flushed(r: RecordView, base: Seq<char>, label: Seq<char>) -> Seq<ProfileView> {
    if is_complete(r) {
        seq![resolve(r, base, label)]
    } else {
        Seq::empty()
    }
}

/// The profiles of a sequence of records, in order.
pub open spec fn emitted(rs: Seq<RecordView>, base: Seq<char>, label: Seq<char>) -> Seq<
    ProfileView,
>
    decreases rs.len(),
{
    if rs.len() == 0 {
        Seq::empty()
    } else {
        emitted(rs.drop_last(), base, label) + flushed(rs.last(), base, label)
    }
}

/// The profiles that the registry text `content` lists.
pub open spec fn parsed(content: Seq<char>, base: Seq<char>, label: Seq<char>) -> Seq<
    ProfileView,
> {
    emitted(sections_of(content), base, label)
}

/// How many of `lines` open a section.
pub open spec fn marker_count(lines: Seq<Seq<char>>) -> nat
    decreases lines.len(),
{
    if lines.len() == 0 {
        0
    } else {
        marker_count(lines.drop_last()) + if is_section_marker(trimmed(lines.last())) {
            1nat
        } else {
            0nat
        }
    }
}

/// Every profile in `ps` has a non-empty name and a non-empty root directory.
pub open spec fn all_filled(ps: Seq<ProfileView>) -> bool {
    forall|k: int|
        0 <= k < ps.len() ==> #[trigger] ps[k].profile_name.len() > 0
            && ps[k].root_directory.len() > 0
}

proof fn lemma_scan_closed_count(lines: Seq<Seq<char>>)
    ensures
        scan(lines).0.len() == marker_count(lines),
    decreases lines.len(),
{
    if lines.len() > 0 {
        lemma_scan_closed_count(lines.drop_last());
    }
}

proof fn lemma_emitted_named(rs: Seq<RecordView>, base: Seq<char>, label: Seq<char>)
    ensures
        emitted(rs, base, label).len() <= rs.len(),
        forall|k: int|
            0 <= k < emitted(rs, base, label).len() ==> #[trigger] emitted(
                rs,
                base,
                label,
            )[k].profile_name.len() > 0,
    decreases rs.len(),
{
    if rs.len() > 0 {
        lemma_emitted_named(rs.drop_last(), base, label);
    }
}

/// A registry text yields at most one profile per section marker, plus one for
/// the keys before the first marker, and every profile it yields has a name.
pub proof fn lemma_parsed_bounded(content: Seq<char>, base: Seq<char>, label: Seq<char>)
    ensures
        parsed(content, base, label).len() <= marker_count(lines_of(content)) + 1,
        forall|k: int|
            0 <= k < parsed(content, base, label).len() ==> #[trigger] parsed(
                content,
                base,
                label,
            )[k].profile_name.len() > 0,
{
    lemma_scan_closed_count(lines_of(content));
    lemma_emitted_named(sections_of(content), base, label);
}

/// A value as the registry holds it: non-empty, on one line, and not ending in
/// whitespace.
pub open spec fn is_line_value(v: Seq<char>) -> bool {
    v.len() > 0 && !v.contains('\n') && !is_white(v.last())
}

/// The registry text of a single section that gives the profile `name` the
/// absolute path `path`.
pub open spec fn absolute_section(name: Seq<char>, path: Seq<char>) -> Seq<char> {
    "[Profile0]"@ + seq!['\n'] + ("Name="@ + name) + seq!['\n'] + ("Path="@ + path) + seq!['\n']
        + "IsRelative=0"@ + seq!['\n']
}

proof fn lemma_keyed_line(key: Seq<char>, v: Seq<char>)
    requires
        key.len() > 0,
        !key.contains('\n'),
        !is_white(key[0]),
        is_line_value(v),
    ensures
        !(key + v).contains('\n'),
        trimmed(key + v) == key + v,
        (key + v).skip(key.len() as int) == v,
        starts_with(key + v, key),
{
    let l = key + v;
    assert forall|i: int| 0 <= i < l.len() implies l[i] != '\n' by {
        if i < key.len() {
            assert(key[i] == l[i]);
        } else {
            assert(v[i - key.len()] == l[i]);
        }
    }
    assert(trim_start(l) == l);
    assert(l.last() == v.last());
    assert(trim_end(l) == l);
    assert(l.skip(key.len() as int) =~= v);
    assert(l.take(key.len() as int) =~= key);
}

/// Writing a profile back as a section with `IsRelative=0` and reading that text
/// yields the same profile: an absolute path is taken unchanged as its root
/// directory.
pub proof fn lemma_absolute_round_trip(
    name: Seq<char>,
    path: Seq<char>,
    base: Seq<char>,
    label: Seq<char>,
)
    requires
        is_line_value(name),
        is_line_value(path),
    ensures
        parsed(absolute_section(name, path), base, label) == seq![
            ProfileView { browser_name: label, profile_name: name, root_directory: path },
        ],
{
    reveal_strlit("[Profile0]");
    reveal_strlit("[Profile");
    reveal_strlit("Name=");
    reveal_strlit("Path=");
    reveal_strlit("IsRelative=");
    reveal_strlit("IsRelative=0");
    let nl = seq!['\n'];
    let l1 = "[Profile0]"@;
    let l2 = "Name="@ + name;
    let l3 = "Path="@ + path;
    let l4 = "IsRelative=0"@;
    let e = Seq::<char>::empty();
    lemma_keyed_line("Name="@, name);
    lemma_keyed_line("Path="@, path);
    lemma_single_line(l1);
    lemma_single_line(l2);
    lemma_single_line(l3);
    lemma_single_line(l4);
    lemma_single_line(e);
    lemma_lines_join(l1, l2);
    lemma_lines_join(l1 + nl + l2, l3);
    lemma_lines_join(l1 + nl + l2 + nl + l3, l4);
    lemma_lines_join(l1 + nl + l2 + nl + l3 + nl + l4, e);
    assert(absolute_section(name, path) =~= l1 + nl + l2 + nl + l3 + nl + l4 + nl + e);
    let lines = lines_of(absolute_section(name, path));
    assert(lines =~= seq![l1, l2, l3, l4, e]);

    // the trimmed lines and how each is read
    assert(trimmed(l1) == l1);
    assert(trimmed(l4) == l4);
    assert(trimmed(e) =~= e);
    assert(is_section_marker(l1)) by {
        assert(l1.take(8) =~= "[Profile"@);
    }
    assert(!is_section_marker(l2)) by {
        assert(l2[0] != "[Profile"@[0]);
        if l2.len() >= 8 {
            assert(l2.take(8)[0] == l2[0]);
        }
    }
    assert(!is_section_marker(l3)) by {
        if l3.len() >= 8 {
            assert(l3.take(8)[0] == l3[0]);
        }
    }
    assert(!starts_with(l3, "Name="@)) by {
        assert(l3.take(5)[0] == l3[0]);
    }
    assert(!is_section_marker(l4)) by {
        assert(l4.take(8)[0] == l4[0]);
    }
    assert(!starts_with(l4, "Name="@)) by {
        assert(l4.take(5)[0] == l4[0]);
    }
    assert(!starts_with(l4, "Path="@)) by {
        assert(l4.take(5)[0] == l4[0]);
    }
    assert(starts_with(l4, "IsRelative="@)) by {
        assert(l4.take(11) =~= "IsRelative="@);
    }
    assert(!l4.skip(11).contains('1')) by {
        assert(l4.skip(11) =~= seq!['0']);
    }

    // the scan, one line at a time
    let r = RecordView { name: name, raw_path: Seq::empty(), is_relative: false };
    let r2 = RecordView { name: name, raw_path: path, is_relative: false };
    assert(lines.take(0).len() == 0);
    assert(lines.take(1).drop_last() =~= lines.take(0));
    assert(lines.take(1).last() == l1);
    assert(scan(lines.take(0)) == (Seq::<RecordView>::empty(), empty_record()));
    assert(Seq::<RecordView>::empty().push(empty_record()) =~= seq![empty_record()]);
    assert(scan(lines.take(1)) == (seq![empty_record()], empty_record()));
    assert(lines.take(2).drop_last() =~= lines.take(1));
    assert(scan(lines.take(2)) == (seq![empty_record()], r));
    assert(lines.take(3).drop_last() =~= lines.take(2));
    assert(scan(lines.take(3)) == (seq![empty_record()], r2));
    assert(lines.take(4).drop_last() =~= lines.take(3));
    assert(scan(lines.take(4)) == (seq![empty_record()], r2));
    assert(lines.take(5).drop_last() =~= lines.take(4));
    assert(lines.take(5) =~= lines);
    assert(scan(lines) == (seq![empty_record()], r2));

    let rs = seq![empty_record(), r2];
    assert(sections_of(absolute_section(name, path)) == rs);
    assert(rs.drop_last() =~= seq![empty_record()]);
    assert(seq![empty_record()].drop_last() =~= Seq::<RecordView>::empty());
    assert(emitted(Seq::<RecordView>::empty(), base, label) == Seq::<ProfileView>::empty());
    assert(!is_complete(empty_record()));
    assert(flushed(empty_record(), base, label) == Seq::<ProfileView>::empty());
    assert(emitted(seq![empty_record()], base, label) =~= Seq::<ProfileView>::empty());
    assert(flushed(r2, base, label) == seq![
        ProfileView { browser_name: label, profile_name: name, root_directory: path },
    ]);
    assert(emitted(rs, base, label) =~= seq![
        ProfileView { browser_name: label, profile_name: name, root_directory: path },
    ]);
}

/// A value as the parser reads it: empty, or a value as the registry holds it.
pub open spec fn is_read_value(v: Seq<char>) -> bool {
    v.len() == 0 || is_line_value(v)
}

pub open spec fn is_read_record(r: RecordView) -> bool {
    is_read_value(r.name) && is_read_value(r.raw_path)
}

proof fn lemma_value_after_key(t: Seq<char>, k: int)
    requires
        0 <= k <= t.len(),
        !t.contains('\n'),
        t.len() > 0 ==> !is_white(t.last()),
    ensures
        is_read_value(t.skip(k)),
{
    let v = t.skip(k);
    if v.len() > 0 {
        assert(v.last() == t.last());
        assert forall|i: int| 0 <= i < v.len() implies v[i] != '\n' by {
            assert(v[i] == t[i + k]);
        }
    }
}

proof fn lemma_scan_read(lines: Seq<Seq<char>>)
    requires
        forall|k: int| 0 <= k < lines.len() ==> !(#[trigger] lines[k]).contains('\n'),
    ensures
        forall|j: int| 0 <= j < scan(lines).0.len() ==> is_read_record(#[trigger] scan(lines).0[j]),
        is_read_record(scan(lines).1),
    decreases lines.len(),
{
    if lines.len() > 0 {
        let init = lines.drop_last();
        assert forall|k: int| 0 <= k < init.len() implies !(#[trigger] init[k]).contains('\n') by {
            assert(init[k] == lines[k]);
        }
        lemma_scan_read(init);
        assert(!lines[lines.len() - 1].contains('\n'));
        let t = trimmed(lines.last());
        lemma_trimmed_shape(lines.last(), '\n');
        if starts_with(t, "Name="@) {
            lemma_value_after_key(t, "Name="@.len() as int);
        }
        if starts_with(t, "Path="@) {
            lemma_value_after_key(t, "Path="@.len() as int);
        }
    }
}

/// Every absolute profile the parser yields survives a round trip: written back as
/// a section with `IsRelative=0`, it is read as the same profile with the same
/// root directory.
pub proof fn lemma_read_profile_round_trip(
    content: Seq<char>,
    base: Seq<char>,
    label: Seq<char>,
    j: int,
)
    requires
        0 <= j < sections_of(content).len(),
        is_complete(sections_of(content)[j]),
        !sections_of(content)[j].is_relative,
    ensures
        parsed(
            absolute_section(sections_of(content)[j].name, sections_of(content)[j].raw_path),
            base,
            label,
        ) == seq![resolve(sections_of(content)[j], base, label)],
{
    let lines = lines_of(content);
    lemma_lines_unbroken(content);
    lemma_scan_read(lines);
    let r = sections_of(content)[j];
    assert(is_read_record(r));
    lemma_absolute_round_trip(r.name, r.raw_path, base, label);
}

/// Appends the profile of the record (`name`, `path`, `rel`) to `list` when both
/// its name and its path are non-empty.
pub fn push_to_results(
    list: &mut Vec<BrowserProfile>,
    name: &str,
    path: &str,
    rel: bool,
    base: &str,
    label: &str,
)
    ensures
        views(final(list)@) == views(old(list)@) + flushed(
            RecordView { name: name@, raw_path: path@, is_relative: rel },
            base@,
            label@,
        ),
        all_filled(views(old(list)@)) ==> all_filled(views(final(list)@)),
{
    if name.unicode_len() > 0 && path.unicode_len() > 0 {
        let root_dir = if rel {
            join_path(base, path)
        } else {
            String::from_str(path)
        };
        let p = BrowserProfile {
            browser_name: String::from_str(label),
            profile_name: String::from_str(name),
            root_directory: root_dir,
        };
        list.push(p);
        assert(views(final(list)@) =~= views(old(list)@).push(p@));
    } else {
        assert(views(final(list)@) =~= views(old(list)@));
    }
}

/// Reads one line of the registry into the open record `cur`; a section marker
/// closes it into `results` first.
fn feed_line(
    line: &Vec<char>,
    cur: &mut ProfileRecord,
    base: &str,
    label: &str,
    results: &mut Vec<BrowserProfile>,
)
    ensures
        is_section_marker(trimmed(line@)) ==> {
            &&& final(cur)@ == empty_record()
            &&& views(final(results)@) == views(old(results)@) + flushed(old(cur)@, base@, label@)
        },
        all_filled(views(old(results)@)) ==> all_filled(views(final(results)@)),
        !is_section_marker(trimmed(line@)) ==> {
            &&& final(cur)@ == apply_key(old(cur)@, trimmed(line@))
            &&& final(results)@ == old(results)@
        },
{
    let (lo, hi) = trim_bounds(line);
    proof {
        reveal_strlit("Name=");
        reveal_strlit("Path=");
        reveal_strlit("IsRelative=");
    }
    let ghost t = trimmed(line@);
    if has_prefix(line, lo, hi, "[Profile") {
        push_to_results(
            results,
            cur.name.as_str(),
            cur.raw_path.as_str(),
            cur.is_relative,
            base,
            label,
        );
        *cur = ProfileRecord::new();
    } else if has_prefix(line, lo, hi, "Name=") {
        cur.name = string_of(line, lo + 5, hi);
        assert(cur.name@ =~= t.skip(5));
    } else if has_prefix(line, lo, hi, "Path=") {
        cur.raw_path = string_of(line, lo + 5, hi);
        assert(cur.raw_path@ =~= t.skip(5));
    } else if has_prefix(line, lo, hi, "IsRelative=") {
        cur.is_relative = has_char(line, lo + 11, hi, '1');
        assert(line@.subrange(lo + 11, hi as int) =~= t.skip(11));
    }
}

/// Appends to `results` the profiles listed by the registry text `content`, in
/// the order of their sections; relative paths are resolved against `base_dir`
/// and every profile is labelled with `label`.
pub fn parse_ini_content(
    content: &str,
    base_dir: &str,
    label: &str,
    results: &mut Vec<BrowserProfile>,
)
    ensures
        views(final(results)@) == views(old(results)@) + parsed(content@, base_dir@, label@),
        all_filled(views(old(results)@)) ==> all_filled(views(final(results)@)),
{
    broadcast use vstd::string::group_string_axioms;

    let mut cur = ProfileRecord::new();
    let mut line: Vec<char> = Vec::new();
    let ghost start = views(results@);
    for c in it: content.chars()
        invariant
            it.seq() == content@,
            line@ == lines_of(content@.take(it.index() as int)).last(),
            scan(lines_of(content@.take(it.index() as int)).drop_last()).1 == cur@,
            views(results@) == start + emitted(
                scan(lines_of(content@.take(it.index() as int)).drop_last()).0,
                base_dir@,
                label@,
            ),
            all_filled(start) ==> all_filled(views(results@)),
    {
        let ghost i = it.index() as int;
        let ghost before = lines_of(content@.take(i));
        assert(content@.take(i + 1).drop_last() =~= content@.take(i));
        assert(content@.take(i + 1).last() == c);
        proof {
            crate::text::lemma_lines_nonempty(content@.take(i));
        }
        if c == '\n' {
            let ghost old_results = views(results@);
            feed_line(&line, &mut cur, base_dir, label, results);
            line = Vec::new();
            proof {
                let after = lines_of(content@.take(i + 1));
                assert(after.drop_last() =~= before);
                assert(before.drop_last().push(before.last()) =~= before);
                let (closed, open) = scan(before.drop_last());
                if is_section_marker(trimmed(before.last())) {
                    assert(closed.push(open).drop_last() =~= closed);
                }
            }
        } else {
            line.push(c);
            proof {
                let after = lines_of(content@.take(i + 1));
                assert(after.drop_last() =~= before.drop_last());
            }
        }
    }
    proof {
        assert(content@.take(content@.len() as int) =~= content@);
        crate::text::lemma_lines_nonempty(content@);
    }
    let ghost lines = lines_of(content@);
    feed_line(&line, &mut cur, base_dir, label, results);
    proof {
        assert(lines.drop_last().push(lines.last()) =~= lines);
        let (closed, open) = scan(lines.drop_last());
        if is_section_marker(trimmed(lines.last())) {
            assert(closed.push(open).drop_last() =~= closed);
        }
    }
    push_to_results(
        results,
        cur.name.as_str(),
        cur.raw_path.as_str(),
        cur.is_relative,
        base_dir,
        label,
    );
    proof {
        let (closed, open) = scan(lines);
        assert(open == cur@);
        assert(views(results@) == start + emitted(closed, base_dir@, label@) + flushed(
            open,
            base_dir@,
            label@,
        ));
        assert(closed.push(open).drop_last() =~= closed);
        assert(emitted(closed.push(open), base_dir@, label@) == emitted(closed, base_dir@, label@)
            + flushed(open, base_dir@, label@));
        assert(start + emitted(closed, base_dir@, label@) + flushed(open, base_dir@, label@)
            =~= start + (emitted(closed, base_dir@, label@) + flushed(open, base_dir@, label@)));
    }
}

} // verus!
