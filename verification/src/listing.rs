//! The directory enumerator: turns the raw facts the filesystem
//! reports about a directory's children into display entries, splits
//! them into directories and files, and sorts each group
//! case-insensitively by name.  Partial results are preferred: the
//! caller simply omits children it could not read.
use vstd::prelude::*;
use chrono::TimeZone;
use crate::chars::{dec_digits, lower_code};
use crate::paths::join_segments;
use crate::validate::{contained_in, AbsPath};

verus! {

/// Case-insensitive lexicographic order on names, the listing's sort
/// key: compares code points with ASCII letters folded to lower case.
pub open spec fn ci_le(a: Seq<char>, b: Seq<char>) -> bool
    decreases a.len(),
{
    if a.len() == 0 {
        true
    } else if b.len() == 0 {
        false
    } else if lower_code(a[0]) < lower_code(b[0]) {
        true
    } else if lower_code(a[0]) > lower_code(b[0]) {
        false
    } else {
        ci_le(a.drop_first(), b.drop_first())
    }
}

/// The order is total: any two names compare one way or the other.
pub proof fn lemma_ci_le_total(a: Seq<char>, b: Seq<char>)
    ensures
        ci_le(a, b) || ci_le(b, a),
    decreases a.len(),
{
    if a.len() > 0 && b.len() > 0 && lower_code(a[0]) == lower_code(b[0]) {
        lemma_ci_le_total(a.drop_first(), b.drop_first());
    }
}

/// The order is transitive.
pub proof fn lemma_ci_le_trans(a: Seq<char>, b: Seq<char>, c: Seq<char>)
    requires
        ci_le(a, b),
        ci_le(b, c),
    ensures
        ci_le(a, c),
    decreases a.len(),
{
    if a.len() > 0 {
        assert(b.len() > 0);
        assert(c.len() > 0);
        if lower_code(a[0]) == lower_code(b[0]) && lower_code(b[0]) == lower_code(c[0]) {
            lemma_ci_le_trans(a.drop_first(), b.drop_first(), c.drop_first());
        }
    }
}

/// Decides `ci_le` on two names.
pub fn ci_le_names(a: &str, b: &str) -> (r: bool)
    ensures
        r == ci_le(a@, b@),
{
    let la: usize = a.unicode_len();
    let lb: usize = b.unicode_len();
    let mut i: usize = 0;
    proof {
        assert(a@.subrange(0, la as int) =~= a@);
        assert(b@.subrange(0, lb as int) =~= b@);
    }
    while i < la && i < lb
        invariant
            la == a@.len(),
            lb == b@.len(),
            0 <= i <= la,
            0 <= i <= lb,
            ci_le(a@, b@) == ci_le(
                a@.subrange(i as int, la as int),
                b@.subrange(i as int, lb as int),
            ),
        decreases la - i,
    {
        let ghost sa = a@.subrange(i as int, la as int);
        let ghost sb = b@.subrange(i as int, lb as int);
        proof {
            assert(sa.len() > 0);
            assert(sb.len() > 0);
            assert(sa[0] == a@[i as int]);
            assert(sb[0] == b@[i as int]);
            assert(sa.drop_first() =~= a@.subrange(i as int + 1, la as int));
            assert(sb.drop_first() =~= b@.subrange(i as int + 1, lb as int));
        }
        let ca: u32 = crate::chars::lower_code_of(a.get_char(i));
        let cb: u32 = crate::chars::lower_code_of(b.get_char(i));
        if ca < cb {
            return true;
        }
        if ca > cb {
            return false;
        }
        i += 1;
    }
    if i >= la {
        proof {
            assert(a@.subrange(i as int, la as int) =~= Seq::<char>::empty());
        }
        true
    } else {
        proof {
            assert(a@.subrange(i as int, la as int).len() > 0);
            assert(b@.subrange(i as int, lb as int) =~= Seq::<char>::empty());
        }
        false
    }
}

/// What the filesystem reported about one child of a directory; the
/// caller drops children whose name or metadata it could not read.
#[derive(Debug)]
pub struct RawEntry {
    /// The child's own name.
    pub name: String,
    /// Whether the child is itself a directory.
    pub is_dir: bool,
    /// Byte size; meaningful for files only.
    pub size: u64,
    /// Modification time as seconds since the epoch, where known.
    pub modified: Option<i64>,
}

/// One row of a listing, ready for display.
#[derive(Debug)]
pub struct EntryInfo {
    /// The child's own name.
    pub name: String,
    /// Path relative to the served root, for links.
    pub path: String,
    /// Whether the row is a directory.
    pub is_dir: bool,
    /// Human-readable size; files only.
    pub size: Option<String>,
    /// Local modification time at minute granularity, where known.
    pub modified: Option<String>,
}

/// What `humansize` renders a byte count as, with its binary option
/// set; a pure function of the count.
pub uninterp spec fn human_size_of(n: nat) -> Seq<char>;

/// Relies on `humansize::format_size` with the `BINARY` options: the
/// text depends on the byte count alone, and below 1024 it is the
/// count's decimal digits, a space, and `B`.
#[verifier::external_body]
pub fn human_size(n: u64) -> (r: String)
    ensures
        r@ == human_size_of(n as nat),
        n < 1024 ==> r@ == dec_digits(n as nat) + " B"@,
{
    humansize::format_size(n, humansize::BINARY)
}

/// Relies on chrono's `Local.timestamp_opt` and `format`: renders the
/// moment `secs` seconds after the epoch in local time at minute
/// granularity.  The text depends on the machine's time zone, so
/// nothing is claimed of it beyond that a text (or nothing) comes back.
#[verifier::external_body]
pub fn local_minute(secs: i64) -> (r: Option<String>) {
    match chrono::Local.timestamp_opt(secs, 0) {
        chrono::LocalResult::Single(dt) => Some(dt.format("%Y-%m-%d %H:%M").to_string()),
        _ => None,
    }
}

/// The display path of a child named `name` under the root-relative
/// prefix `prefix`: the name alone at the root, else prefix, `/`, name.
pub open spec fn entry_path_of(prefix: Seq<char>, name: Seq<char>) -> Seq<char> {
    if prefix.len() == 0 {
        name
    } else {
        prefix + seq!['/'] + name
    }
}

/// The row `e` faithfully presents the raw child `r` listed under
/// `prefix`: same name and kind, the display path as `entry_path_of`,
/// a size exactly for files, and no time where none was known.
pub open spec fn info_matches(prefix: Seq<char>, r: RawEntry, e: EntryInfo) -> bool {
    &&& e.name@ == r.name@
    &&& e.path@ == entry_path_of(prefix, r.name@)
    &&& e.is_dir == r.is_dir
    &&& (r.is_dir ==> e.size is None)
    &&& (!r.is_dir ==> (e.size matches Some(s) && s@ == human_size_of(r.size as nat)))
    &&& (r.modified is None ==> e.modified is None)
}

/// Builds the display row for one raw child.
pub fn build_entry(prefix: &str, raw: &RawEntry) -> (e: EntryInfo)
    ensures
        info_matches(prefix@, *raw, e),
{
    let path: String = if prefix.unicode_len() == 0 {
        raw.name.clone()
    } else {
        let mut p: String = String::from_str(prefix);
        p.push('/');
        p.append(raw.name.as_str());
        proof {
            assert(p@ =~= prefix@ + seq!['/'] + raw.name@);
        }
        p
    };
    let size: Option<String> = if raw.is_dir {
        None
    } else {
        Some(human_size(raw.size))
    };
    let modified: Option<String> = match &raw.modified {
        Some(secs) => local_minute(*secs),
        None => None,
    };
    EntryInfo { name: raw.name.clone(), path, is_dir: raw.is_dir, size, modified }
}

/// The rows are sorted by the case-insensitive order on their names.
pub open spec fn entries_sorted(s: Seq<EntryInfo>) -> bool {
    forall|i: int, j: int|
        0 <= i < j < s.len() ==> ci_le(#[trigger] s[i].name@, #[trigger] s[j].name@)
}

fn insert_pos(v: &Vec<EntryInfo>, i: usize) -> (j: usize)
    requires
        i < v@.len(),
    ensures
        j <= i,
        forall|k: int| j <= k < i ==> ci_le(v@[i as int].name@, (#[trigger] v@[k]).name@),
        j > 0 ==> ci_le(v@[j - 1].name@, v@[i as int].name@),
{
    let mut j: usize = i;
    while j > 0
        invariant
            j <= i,
            i < v@.len(),
            forall|k: int| j <= k < i ==> ci_le(v@[i as int].name@, (#[trigger] v@[k]).name@),
        decreases j,
    {
        if ci_le_names(v[j - 1].name.as_str(), v[i].name.as_str()) {
            return j;
        }
        proof {
            lemma_ci_le_total(v@[i as int].name@, v@[j - 1].name@);
        }
        j -= 1;
    }
    0
}

/// Sorts rows in place by name, case-insensitively; the rows themselves
/// are exactly those given.
pub fn sort_entries(v: &mut Vec<EntryInfo>)
    ensures
        entries_sorted(final(v)@),
        final(v)@.to_multiset() == old(v)@.to_multiset(),
{
    broadcast use vstd::seq_lib::group_to_multiset_ensures;
    broadcast use vstd::multiset::group_multiset_axioms;

    let n: usize = v.len();
    if n <= 1 {
        proof {
            assert(entries_sorted(v@));
        }
        return;
    }
    let mut i: usize = 1;
    while i < n
        invariant
            1 <= i <= n,
            n == v@.len(),
            entries_sorted(v@.subrange(0, i as int)),
            v@.to_multiset() == old(v)@.to_multiset(),
        decreases n - i,
    {
        let j: usize = insert_pos(v, i);
        let ghost s0 = v@;
        let x: EntryInfo = v.remove(i);
        let ghost s1 = v@;
        v.insert(j, x);
        let ghost s2 = v@;
        proof {
            assert(s1 =~= s0.remove(i as int));
            assert(s2 =~= s1.insert(j as int, x));
            // every index of the new prefix maps to an old element
            assert forall|m: int| 0 <= m < j implies s2[m] == s0[m] by {}
            assert(s2[j as int] == s0[i as int]);
            assert forall|m: int| j < m <= i implies s2[m] == s0[m - 1] by {}
            // the prefix one longer is sorted again
            assert forall|k: int, l: int| 0 <= k < l < i + 1 implies ci_le(
                (#[trigger] s2.subrange(0, i as int + 1)[k]).name@,
                (#[trigger] s2.subrange(0, i as int + 1)[l]).name@,
            ) by {
                assert(s2.subrange(0, i as int + 1)[k] == s2[k]);
                assert(s2.subrange(0, i as int + 1)[l] == s2[l]);
                let key = s0[i as int].name@;
                if l < j {
                    assert(s0.subrange(0, i as int)[k] == s0[k]);
                    assert(s0.subrange(0, i as int)[l] == s0[l]);
                } else if l == j {
                    // k < j <= i, so j > 0 and the found spot bounds the key
                    assert(ci_le(s0[j - 1].name@, key));
                    if k < j - 1 {
                        assert(s0.subrange(0, i as int)[k] == s0[k]);
                        assert(s0.subrange(0, i as int)[j - 1] == s0[j - 1]);
                        assert(ci_le(s0[k].name@, s0[j - 1].name@));
                        lemma_ci_le_trans(s0[k].name@, s0[j - 1].name@, key);
                    }
                } else if k < j {
                    assert(s0.subrange(0, i as int)[k] == s0[k]);
                    assert(s0.subrange(0, i as int)[l - 1] == s0[l - 1]);
                } else if k == j {
                    assert(ci_le(key, s0[l - 1].name@));
                } else {
                    assert(s0.subrange(0, i as int)[k - 1] == s0[k - 1]);
                    assert(s0.subrange(0, i as int)[l - 1] == s0[l - 1]);
                }
            }
            // the rows are preserved as a multiset
            vstd::seq_lib::to_multiset_remove::<EntryInfo>(s0, i as int);
            vstd::seq_lib::to_multiset_insert::<EntryInfo>(s1, j as int, x);
            vstd::seq_lib::to_multiset_contains::<EntryInfo>(s0, s0[i as int]);
            assert(s0.remove(i as int).to_multiset() == s0.to_multiset().remove(s0[i as int]));
            assert(s1.to_multiset() == s0.to_multiset().remove(s0[i as int]));
            assert(s1.insert(j as int, x).to_multiset() == s1.to_multiset().insert(x));
            assert(s2.to_multiset() == s1.to_multiset().insert(x));
            assert(s0.contains(s0[i as int]));
            assert(s0.to_multiset().count(s0[i as int]) > 0);
            assert(s2.to_multiset() =~= s0.to_multiset());
        }
        i += 1;
    }
    proof {
        assert(v@.subrange(0, n as int) =~= v@);
    }
}

fn build_entries(prefix: &str, raws: &Vec<RawEntry>) -> (out: Vec<EntryInfo>)
    ensures
        out@.len() == raws@.len(),
        forall|i: int|
            0 <= i < raws@.len() ==> info_matches(prefix@, raws@[i], #[trigger] out@[i]),
{
    let mut out: Vec<EntryInfo> = Vec::new();
    let mut i: usize = 0;
    while i < raws.len()
        invariant
            0 <= i <= raws@.len(),
            out@.len() == i,
            forall|k: int|
                0 <= k < i ==> info_matches(prefix@, raws@[k], #[trigger] out@[k]),
        decreases raws.len() - i,
    {
        let e: EntryInfo = build_entry(prefix, &raws[i]);
        out.push(e);
        i += 1;
    }
    out
}

/// The whole enumerator: presents each raw child under `prefix`, splits
/// directories from files, and sorts each group by name.  The two
/// groups together are exactly the given children, row for row.
pub fn build_listing(prefix: &str, raws: &Vec<RawEntry>) -> (r: (Vec<EntryInfo>, Vec<EntryInfo>))
    ensures
        entries_sorted(r.0@),
        entries_sorted(r.1@),
        forall|i: int| 0 <= i < r.0@.len() ==> (#[trigger] r.0@[i]).is_dir,
        forall|i: int| 0 <= i < r.1@.len() ==> !(#[trigger] r.1@[i]).is_dir,
        r.0@.len() + r.1@.len() == raws@.len(),
        exists|mid: Seq<EntryInfo>|
            #![trigger mid.to_multiset()]
            mid.len() == raws@.len() && (forall|i: int|
                0 <= i < mid.len() ==> info_matches(prefix@, raws@[i], #[trigger] mid[i]))
                && r.0@.to_multiset().add(r.1@.to_multiset()) == mid.to_multiset(),
{
    broadcast use vstd::seq_lib::group_to_multiset_ensures;
    broadcast use vstd::multiset::group_multiset_axioms;

    let infos: Vec<EntryInfo> = build_entries(prefix, raws);
    let ghost mid = infos@;
    let mut rest: Vec<EntryInfo> = infos;
    let mut dirs: Vec<EntryInfo> = Vec::new();
    let mut files: Vec<EntryInfo> = Vec::new();
    while rest.len() > 0
        invariant
            dirs@.to_multiset().add(files@.to_multiset()).add(rest@.to_multiset())
                == mid.to_multiset(),
            dirs@.len() + files@.len() + rest@.len() == mid.len(),
            forall|i: int| 0 <= i < dirs@.len() ==> (#[trigger] dirs@[i]).is_dir,
            forall|i: int| 0 <= i < files@.len() ==> !(#[trigger] files@[i]).is_dir,
        decreases rest.len(),
    {
        let ghost r0 = rest@;
        let ghost d0 = dirs@;
        let ghost f0 = files@;
        let e: EntryInfo = rest.remove(0);
        proof {
            assert(rest@ =~= r0.remove(0));
            vstd::seq_lib::to_multiset_remove::<EntryInfo>(r0, 0);
            vstd::seq_lib::to_multiset_contains::<EntryInfo>(r0, r0[0]);
            assert(r0.remove(0).to_multiset() == r0.to_multiset().remove(r0[0]));
            assert(rest@.to_multiset() == r0.to_multiset().remove(r0[0]));
            assert(r0.contains(r0[0]));
            assert(r0.to_multiset().count(r0[0]) > 0);
            assert(r0.to_multiset() =~= rest@.to_multiset().insert(e));
        }
        if e.is_dir {
            dirs.push(e);
            proof {
                vstd::seq_lib::to_multiset_build::<EntryInfo>(d0, e);
                assert(dirs@.to_multiset() =~= d0.to_multiset().insert(e));
                assert(dirs@.to_multiset().add(files@.to_multiset()).add(rest@.to_multiset())
                    =~= d0.to_multiset().add(f0.to_multiset()).add(r0.to_multiset()));
            }
        } else {
            files.push(e);
            proof {
                vstd::seq_lib::to_multiset_build::<EntryInfo>(f0, e);
                assert(files@.to_multiset() =~= f0.to_multiset().insert(e));
                assert(dirs@.to_multiset().add(files@.to_multiset()).add(rest@.to_multiset())
                    =~= d0.to_multiset().add(f0.to_multiset()).add(r0.to_multiset()));
            }
        }
    }
    proof {
        assert(rest@.to_multiset().len() == 0);
        assert(dirs@.to_multiset().add(files@.to_multiset()) =~= mid.to_multiset());
    }
    let ghost d1 = dirs@;
    let ghost f1 = files@;
    sort_entries(&mut dirs);
    sort_entries(&mut files);
    proof {
        assert forall|i: int| 0 <= i < dirs@.len() implies (#[trigger] dirs@[i]).is_dir by {
            assert(dirs@.contains(dirs@[i]));
            assert(dirs@.to_multiset().count(dirs@[i]) > 0);
            assert(d1.to_multiset().count(dirs@[i]) > 0);
            assert(d1.contains(dirs@[i]));
            let k = choose|k: int| 0 <= k < d1.len() && d1[k] == dirs@[i];
            assert(d1[k].is_dir);
        }
        assert forall|i: int| 0 <= i < files@.len() implies !(#[trigger] files@[i]).is_dir by {
            assert(files@.contains(files@[i]));
            assert(files@.to_multiset().count(files@[i]) > 0);
            assert(f1.to_multiset().count(files@[i]) > 0);
            assert(f1.contains(files@[i]));
            let k = choose|k: int| 0 <= k < f1.len() && f1[k] == files@[i];
            assert(!f1[k].is_dir);
        }
        assert(dirs@.to_multiset().len() == dirs@.len());
        assert(files@.to_multiset().len() == files@.len());
        assert(d1.to_multiset().len() == d1.len());
        assert(f1.to_multiset().len() == f1.len());
        assert(dirs@.to_multiset().add(files@.to_multiset()) == mid.to_multiset());
    }
    (dirs, files)
}

/// The root-relative display prefix of a validated path: its components
/// past the root's, joined by `/`; empty for the root itself.
pub fn rel_display_of(root: &AbsPath, v: &AbsPath) -> (r: String)
    requires
        contained_in(v@, root@),
    ensures
        r@ == join_segments(v@.subrange(root@.len() as int, v@.len() as int)),
{
    let rl: usize = root.segs.len();
    let mut out: String = String::new();
    let mut i: usize = rl;
    proof {
        assert(root@.len() == root.segs@.len());
        assert(v@.len() == v.segs@.len());
        assert(v@.subrange(rl as int, rl as int) =~= Seq::<Seq<char>>::empty());
    }
    while i < v.segs.len()
        invariant
            rl == root@.len(),
            rl <= i <= v.segs@.len(),
            v@.len() == v.segs@.len(),
            out@ =~= join_segments(v@.subrange(rl as int, i as int)),
        decreases v.segs.len() - i,
    {
        proof {
            assert(v@[i as int] == v.segs@[i as int]@);
        }
        if i > rl {
            out.push('/');
            out.append(v.segs[i].as_str());
            proof {
                let pre = v@.subrange(rl as int, i as int);
                crate::paths::lemma_join_snoc(pre, v@[i as int]);
                assert(pre.push(v@[i as int]) =~= v@.subrange(rl as int, i as int + 1));
            }
        } else {
            out.append(v.segs[i].as_str());
            proof {
                assert(v@.subrange(rl as int, i as int + 1) =~= seq![v@[i as int]]);
                assert(join_segments(seq![v@[i as int]]) == v@[i as int]);
            }
        }
        i += 1;
    }
    out
}

} // verus!
