//! How a directory listing is ordered and filtered.

use crate::files::entry::{EntryData, EntryView};
use crate::seqs::{keep, lemma_keep_step};
use crate::text::{chars_of, contains_str, contains_text, lowercase, lowercased};
use vstd::prelude::*;

verus! {

/// How a directory listing is ordered.
#[derive(Debug, Clone, Copy, PartialEq, Eq, Structural)]
pub enum SortKey {
    Name,
    Size,
    Kind,
    Modified,
}

/// The label each sort key carries in menus.
pub open spec fn sort_label(key: SortKey) -> Seq<char> {
    match key {
        SortKey::Name => "Name"@,
        SortKey::Size => "Size"@,
        SortKey::Kind => "Type"@,
        SortKey::Modified => "Modified"@,
    }
}

impl SortKey {
    /// Every sort key, in menu order.
    pub fn all() -> (r: Vec<SortKey>)
        ensures
            r@ == seq![SortKey::Name, SortKey::Size, SortKey::Kind, SortKey::Modified],
    {
        let mut r: Vec<SortKey> = Vec::new();
        r.push(SortKey::Name);
        r.push(SortKey::Size);
        r.push(SortKey::Kind);
        r.push(SortKey::Modified);
        assert(r@ =~= seq![SortKey::Name, SortKey::Size, SortKey::Kind, SortKey::Modified]);
        r
    }

    /// The label shown for this key.
    pub fn label(self) -> (r: &'static str)
        ensures
            r@ == sort_label(self),
    {
        match self {
            SortKey::Name => "Name",
            SortKey::Size => "Size",
            SortKey::Kind => "Type",
            SortKey::Modified => "Modified",
        }
    }
}

/// The ordering of one listing: the key, its direction, and whether folders lead.
#[derive(Debug, Clone, Copy, PartialEq, Eq, Structural)]
pub struct Sorting {
    pub key: SortKey,
    pub descending: bool,
    pub folders_first: bool,
}

impl Default for Sorting {
    /// By name, ascending, folders first.
    fn default() -> (r: Self)
        ensures
            r == (Sorting { key: SortKey::Name, descending: false, folders_first: true }),
    {
        Sorting { key: SortKey::Name, descending: false, folders_first: true }
    }
}

// ------------------------------------------------------------------ ordering ----

/// The outcome of comparing two entries.
#[derive(Debug, Clone, Copy, PartialEq, Eq, Structural)]
pub enum Order {
    Less,
    Equal,
    Greater,
}

/// The other way round.
pub open spec fn flip(o: Order) -> Order {
    match o {
        Order::Less => Order::Greater,
        Order::Equal => Order::Equal,
        Order::Greater => Order::Less,
    }
}

/// Numbers in their natural order.
pub open spec fn num_order(a: int, b: int) -> Order {
    if a < b {
        Order::Less
    } else if a == b {
        Order::Equal
    } else {
        Order::Greater
    }
}

/// Texts in lexicographic order of their characters' code points (the order of their
/// UTF-8 bytes).
pub open spec fn text_order(a: Seq<char>, b: Seq<char>) -> Order
    decreases a.len(),
{
    if a.len() == 0 {
        if b.len() == 0 {
            Order::Equal
        } else {
            Order::Less
        }
    } else if b.len() == 0 {
        Order::Greater
    } else if a[0] < b[0] {
        Order::Less
    } else if a[0] > b[0] {
        Order::Greater
    } else {
        text_order(a.drop_first(), b.drop_first())
    }
}

/// What an entry is ordered by: its lowercase name, whether it is a folder, its size,
/// its lowercase kind, and its modification time (the earliest possible time when
/// unknown).
pub type KeyView = (Seq<char>, bool, u64, Seq<char>, int);

/// The ordering key of an entry.
pub open spec fn key_of(e: EntryView) -> KeyView {
    (
        e.sort_key,
        e.is_directory,
        e.size,
        lowercased(e.kind),
        match e.modified {
            Some(t) => t as int,
            None => i64::MIN as int,
        },
    )
}

/// How two entries are ordered: folders first when asked, then by the chosen key in
/// the chosen direction, then by name.
pub open spec fn entry_order(a: KeyView, b: KeyView, s: Sorting) -> Order {
    if s.folders_first && a.1 != b.1 {
        if a.1 {
            Order::Less
        } else {
            Order::Greater
        }
    } else {
        let primary = match s.key {
            SortKey::Name => text_order(a.0, b.0),
            SortKey::Size => num_order(a.2 as int, b.2 as int),
            SortKey::Kind => text_order(a.3, b.3),
            SortKey::Modified => num_order(a.4, b.4),
        };
        let directed = if s.descending {
            flip(primary)
        } else {
            primary
        };
        if directed == Order::Equal {
            text_order(a.0, b.0)
        } else {
            directed
        }
    }
}

proof fn lemma_text_order(a: Seq<char>, b: Seq<char>, c: Seq<char>)
    ensures
        (text_order(a, b) == Order::Equal) == (a == b),
        (text_order(a, b) == Order::Less) == (text_order(b, a) == Order::Greater),
        text_order(a, b) == Order::Less && text_order(b, c) == Order::Less ==> text_order(a, c) == Order::Less,
    decreases a.len(),
{
    if a.len() > 0 && b.len() > 0 && c.len() > 0 {
        lemma_text_order(a.drop_first(), b.drop_first(), c.drop_first());
    } else if a.len() > 0 && b.len() > 0 {
        lemma_text_order(a.drop_first(), b.drop_first(), b.drop_first());
    }
    if a.len() > 0 && b.len() > 0 && a[0] == b[0] && a.drop_first() == b.drop_first() {
        assert(a =~= seq![a[0]] + a.drop_first());
        assert(b =~= seq![b[0]] + b.drop_first());
    }
    if a.len() > 0 && b.len() > 0 && a == b {
        assert(a.drop_first() == b.drop_first());
    }
    if a.len() == 0 && b.len() == 0 {
        assert(a =~= b);
    }
    if a.len() > 0 && b.len() > 0 && a[0] == b[0] {
        if text_order(a.drop_first(), b.drop_first()) == Order::Equal {
            assert(a.drop_first() == b.drop_first());
            assert(a =~= seq![a[0]] + a.drop_first());
            assert(b =~= seq![b[0]] + b.drop_first());
            assert(a == b);
        }
    }
}

proof fn lemma_order_facts(a: KeyView, b: KeyView, c: KeyView, s: Sorting)
    ensures
        (entry_order(a, b, s) == Order::Less) == (entry_order(b, a, s) == Order::Greater),
        entry_order(a, b, s) != Order::Greater && entry_order(b, c, s) != Order::Greater ==> entry_order(a, c, s) != Order::Greater,
{
    lemma_text_order(a.0, b.0, c.0);
    lemma_text_order(b.0, c.0, a.0);
    lemma_text_order(c.0, a.0, b.0);
    lemma_text_order(a.0, c.0, b.0);
    lemma_text_order(b.0, a.0, c.0);
    lemma_text_order(c.0, b.0, a.0);
    lemma_text_order(a.3, b.3, c.3);
    lemma_text_order(b.3, c.3, a.3);
    lemma_text_order(c.3, a.3, b.3);
    lemma_text_order(a.3, c.3, b.3);
    lemma_text_order(b.3, a.3, c.3);
    lemma_text_order(c.3, b.3, a.3);
}

/// Entries ordered by `s`: no entry comes before one it should follow.
pub open spec fn ordered(keys: Seq<KeyView>, s: Sorting) -> bool {
    forall|i: int, j: int| 0 <= i < j < keys.len() ==> entry_order(#[trigger] keys[i], #[trigger] keys[j], s) != Order::Greater
}

/// `p` lists every position below `n` exactly once.
pub open spec fn is_permutation(p: Seq<int>, n: nat) -> bool {
    &&& p.len() == n
    &&& forall|k: int| 0 <= k < n ==> 0 <= #[trigger] p[k] < n
    &&& forall|i: int, j: int| 0 <= i < j < n ==> #[trigger] p[i] != #[trigger] p[j]
}

/// The entries of `before`, rearranged by `p`, ordered by `s`, with entries that
/// compare equal kept in their original order.
pub open spec fn sorted_from(after: Seq<EntryView>, before: Seq<EntryView>, s: Sorting, p: Seq<int>) -> bool {
    &&& is_permutation(p, before.len())
    &&& after.len() == before.len()
    &&& forall|k: int| 0 <= k < after.len() ==> after[k] == before[#[trigger] p[k]]
    &&& ordered(after.map_values(|e: EntryView| key_of(e)), s)
    &&& forall|i: int, j: int| 0 <= i < j < after.len() && entry_order(key_of(#[trigger] after[i]), key_of(#[trigger] after[j]), s) == Order::Equal ==> p[i] < p[j]
}

/// The views of a list of entries.
pub open spec fn entry_views(v: Seq<EntryData>) -> Seq<EntryView> {
    v.map_values(|e: EntryData| e@)
}

/// An entry's ordering key, computed once.
struct EntryKey {
    name: Vec<char>,
    is_directory: bool,
    size: u64,
    kind: Vec<char>,
    time: i64,
}

impl EntryKey {
    spec fn view_key(&self) -> KeyView {
        (self.name@, self.is_directory, self.size, self.kind@, self.time as int)
    }
}

fn key_for(e: &EntryData) -> (r: EntryKey)
    ensures
        r.view_key() == key_of(e@),
{
    let kind = lowercase(e.kind.as_str());
    EntryKey {
        name: chars_of(e.sort_key.as_str()),
        is_directory: e.is_directory,
        size: e.size,
        kind: chars_of(kind.as_str()),
        time: match e.modified {
            Some(t) => t,
            None => i64::MIN,
        },
    }
}

fn compare_text(a: &Vec<char>, b: &Vec<char>) -> (r: Order)
    ensures
        r == text_order(a@, b@),
{
    let mut i: usize = 0;
    assert(a@.skip(0) =~= a@);
    assert(b@.skip(0) =~= b@);
    while i < a.len() && i < b.len()
        invariant
            i <= a.len(),
            i <= b.len(),
            text_order(a@, b@) == text_order(a@.skip(i as int), b@.skip(i as int)),
        decreases a.len() - i,
    {
        let x = a[i];
        let y = b[i];
        assert(a@.skip(i as int)[0] == x);
        assert(b@.skip(i as int)[0] == y);
        if x < y {
            return Order::Less;
        }
        if x > y {
            return Order::Greater;
        }
        assert(a@.skip(i as int).drop_first() =~= a@.skip(i + 1));
        assert(b@.skip(i as int).drop_first() =~= b@.skip(i + 1));
        i += 1;
    }
    if i == a.len() {
        if i == b.len() {
            Order::Equal
        } else {
            Order::Less
        }
    } else {
        Order::Greater
    }
}

fn compare_num(a: i128, b: i128) -> (r: Order)
    ensures
        r == num_order(a as int, b as int),
{
    if a < b {
        Order::Less
    } else if a == b {
        Order::Equal
    } else {
        Order::Greater
    }
}

fn compare_keys(a: &EntryKey, b: &EntryKey, s: Sorting) -> (r: Order)
    ensures
        r == entry_order(a.view_key(), b.view_key(), s),
{
    if s.folders_first && a.is_directory != b.is_directory {
        return if a.is_directory {
            Order::Less
        } else {
            Order::Greater
        };
    }
    let primary = match s.key {
        SortKey::Name => compare_text(&a.name, &b.name),
        SortKey::Size => compare_num(a.size as i128, b.size as i128),
        SortKey::Kind => compare_text(&a.kind, &b.kind),
        SortKey::Modified => compare_num(a.time as i128, b.time as i128),
    };
    let directed = if s.descending {
        match primary {
            Order::Less => Order::Greater,
            Order::Equal => Order::Equal,
            Order::Greater => Order::Less,
        }
    } else {
        primary
    };
    if directed == Order::Equal {
        compare_text(&a.name, &b.name)
    } else {
        directed
    }
}

/// The key views of positions `order` among `keys`.
spec fn keys_at(keys: Seq<KeyView>, order: Seq<usize>) -> Seq<KeyView> {
    order.map_values(|i: usize| keys[i as int])
}

proof fn lemma_greater_is_monotone(ks: Seq<KeyView>, x: KeyView, s: Sorting, a: int, b: int)
    requires
        ordered(ks, s),
        0 <= a <= b < ks.len(),
    ensures
        entry_order(ks[a], x, s) == Order::Greater ==> entry_order(ks[b], x, s) == Order::Greater,
        entry_order(ks[b], x, s) != Order::Greater ==> entry_order(ks[a], x, s) != Order::Greater,
{
    if a < b {
        assert(entry_order(ks[a], ks[b], s) != Order::Greater);
        lemma_order_facts(ks[a], ks[b], x, s);
    }
}

/// Order the positions of `keys`: a stable binary insertion sort.
fn sort_positions(keys: &Vec<EntryKey>, s: Sorting) -> (order: Vec<usize>)
    ensures
        is_permutation(order@.map_values(|i: usize| i as int), keys.len() as nat),
        ordered(keys_at(keys@.map_values(|k: EntryKey| k.view_key()), order@), s),
        forall|i: int, j: int| 0 <= i < j < order.len() && entry_order(
            keys@[order@[i] as int].view_key(),
            keys@[order@[j] as int].view_key(),
            s,
        ) == Order::Equal ==> order@[i] < order@[j],
{
    let ghost kv = keys@.map_values(|k: EntryKey| k.view_key());
    let mut order: Vec<usize> = Vec::new();
    let mut m: usize = 0;
    while m < keys.len()
        invariant
            m <= keys.len(),
            kv == keys@.map_values(|k: EntryKey| k.view_key()),
            order.len() == m,
            forall|k: int| 0 <= k < m ==> (#[trigger] order@[k]) < m,
            forall|i: int, j: int| 0 <= i < j < m ==> #[trigger] order@[i] != #[trigger] order@[j],
            ordered(keys_at(kv, order@), s),
            forall|i: int, j: int| 0 <= i < j < m && entry_order(kv[order@[i] as int], kv[order@[j] as int], s) == Order::Equal ==> order@[i] < order@[j],
        decreases keys.len() - m,
    {
        let ghost ks = keys_at(kv, order@);
        let ghost x = kv[m as int];
        assert(keys@[m as int].view_key() == x);
        let mut lo: usize = 0;
        let mut hi: usize = order.len();
        while lo < hi
            invariant
                lo <= hi <= order.len(),
                order.len() == m,
                m < keys.len(),
                kv == keys@.map_values(|k: EntryKey| k.view_key()),
                ks == keys_at(kv, order@),
                x == kv[m as int],
                forall|k: int| 0 <= k < m ==> (#[trigger] order@[k]) < m,
                ordered(ks, s),
                forall|k: int| 0 <= k < lo ==> entry_order(#[trigger] ks[k], x, s) != Order::Greater,
                forall|k: int| hi <= k < order.len() ==> entry_order(#[trigger] ks[k], x, s) == Order::Greater,
            decreases hi - lo,
        {
            let mid = lo + (hi - lo) / 2;
            let p = order[mid];
            assert(ks[mid as int] == kv[p as int]);
            assert(keys@[p as int].view_key() == kv[p as int]);
            let o = compare_keys(&keys[p], &keys[m], s);
            if o == Order::Greater {
                assert forall|k: int| mid <= k < order.len() implies entry_order(#[trigger] ks[k], x, s) == Order::Greater by {
                    lemma_greater_is_monotone(ks, x, s, mid as int, k);
                }
                hi = mid;
            } else {
                assert forall|k: int| 0 <= k <= mid implies entry_order(#[trigger] ks[k], x, s) != Order::Greater by {
                    lemma_greater_is_monotone(ks, x, s, k, mid as int);
                }
                lo = mid + 1;
            }
        }
        let pos = lo;
        let ghost before = order@;
        order.insert(pos, m);
        let ghost after = order@;
        assert(after =~= before.insert(pos as int, m));
        let ghost ks2 = keys_at(kv, after);
        assert forall|i: int, j: int| 0 <= i < j < after.len() implies entry_order(#[trigger] ks2[i], #[trigger] ks2[j], s) != Order::Greater by {
            if j < pos {
                assert(ks2[i] == ks[i] && ks2[j] == ks[j]);
            } else if j == pos {
                assert(ks2[j] == x);
                if i < pos {
                    assert(ks2[i] == ks[i]);
                }
            } else if i == pos {
                assert(ks2[i] == x);
                assert(ks2[j] == ks[j - 1]);
                lemma_order_facts(x, ks[j - 1], x, s);
            } else if i < pos {
                assert(ks2[i] == ks[i] && ks2[j] == ks[j - 1]);
            } else {
                assert(ks2[i] == ks[i - 1] && ks2[j] == ks[j - 1]);
            }
        }
        assert forall|i: int, j: int| 0 <= i < j < after.len() && entry_order(kv[after[i] as int], kv[after[j] as int], s) == Order::Equal implies after[i] < after[j] by {
            if i == pos {
                assert(after[i] == m);
                assert(kv[after[j] as int] == ks[j - 1]);
                lemma_order_facts(x, ks[j - 1], x, s);
            } else if j == pos {
                assert(after[j] == m);
            } else if i < pos && j < pos {
                assert(after[i] == before[i] && after[j] == before[j]);
            } else if i < pos {
                assert(after[i] == before[i] && after[j] == before[j - 1]);
            } else {
                assert(after[i] == before[i - 1] && after[j] == before[j - 1]);
            }
        }
        assert forall|i: int, j: int| 0 <= i < j < m + 1 implies #[trigger] after[i] != #[trigger] after[j] by {
            if i == pos {
                assert(after[j] == before[j - 1]);
            } else if j == pos {
                assert(after[i] == before[i]);
            } else if i < pos && j < pos {
                assert(after[i] == before[i] && after[j] == before[j]);
            } else if i < pos {
                assert(after[i] == before[i] && after[j] == before[j - 1]);
            } else {
                assert(after[i] == before[i - 1] && after[j] == before[j - 1]);
            }
        }
        assert forall|k: int| 0 <= k < m + 1 implies (#[trigger] after[k]) < m + 1 by {
            if k < pos {
                assert(after[k] == before[k]);
            } else if k > pos {
                assert(after[k] == before[k - 1]);
            }
        }
        m += 1;
    }
    assert forall|i: int, j: int| 0 <= i < j < order.len() && entry_order(
            keys@[order@[i] as int].view_key(),
            keys@[order@[j] as int].view_key(),
            s,
        ) == Order::Equal implies order@[i] < order@[j] by {
        assert(kv[order@[i] as int] == keys@[order@[i] as int].view_key());
        assert(kv[order@[j] as int] == keys@[order@[j] as int].view_key());
    }
    let ghost p = order@.map_values(|i: usize| i as int);
    assert forall|i: int, j: int| 0 <= i < j < keys.len() implies #[trigger] p[i] != #[trigger] p[j] by {
        assert(order@[i] != order@[j]);
    }
    assert forall|k: int| 0 <= k < keys.len() implies 0 <= #[trigger] p[k] < keys.len() by {
        assert(order@[k] < keys.len());
    }
    order
}

/// Order entries according to `sorting`: folders first when asked, then by the chosen
/// key in the chosen direction, then by name; entries that compare equal keep the
/// order they had.
#[verifier::rlimit(40)]
pub fn sort(entries: &mut Vec<EntryData>, sorting: Sorting)
    ensures
        exists|p: Seq<int>| #[trigger] sorted_from(entry_views(final(entries)@), entry_views(old(entries)@), sorting, p),
{
    let ghost before = entry_views(entries@);
    let mut keys: Vec<EntryKey> = Vec::new();
    let mut i: usize = 0;
    while i < entries.len()
        invariant
            i <= entries.len(),
            keys.len() == i,
            before == entry_views(entries@),
            forall|k: int| 0 <= k < i ==> (#[trigger] keys@[k]).view_key() == key_of(before[k]),
        decreases entries.len() - i,
    {
        let k = key_for(&entries[i]);
        keys.push(k);
        i += 1;
    }
    let order = sort_positions(&keys, sorting);
    let ghost kv = keys@.map_values(|k: EntryKey| k.view_key());
    assert forall|k: int| 0 <= k < order.len() implies (#[trigger] order@[k] as int) < entries.len() by {
        assert(order@.map_values(|i: usize| i as int)[k] == order@[k] as int);
    }
    let mut out: Vec<EntryData> = Vec::new();
    let mut j: usize = 0;
    while j < order.len()
        invariant
            j <= order.len(),
            order.len() == entries.len(),
            keys.len() == entries.len(),
            before == entry_views(entries@),
            is_permutation(order@.map_values(|i: usize| i as int), keys.len() as nat),
            forall|k: int| 0 <= k < order.len() ==> (#[trigger] order@[k] as int) < entries.len(),
            out.len() == j,
            forall|k: int| 0 <= k < j ==> (#[trigger] out@[k])@ == before[order@[k] as int],
        decreases order.len() - j,
    {
        let p = order[j];
        assert(order@.map_values(|i: usize| i as int)[j as int] == p as int);
        let e = entries[p].copy();
        out.push(e);
        j += 1;
    }
    let ghost p = order@.map_values(|i: usize| i as int);
    let ghost after = out@.map_values(|e: EntryData| e@);
    assert forall|k: int| 0 <= k < after.len() implies after[k] == before[#[trigger] p[k]] by {
        assert(out@[k]@ == before[order@[k] as int]);
    }
    assert forall|k: int| 0 <= k < keys.len() implies #[trigger] kv[k] == key_of(before[k]) by {
        assert(keys@[k].view_key() == key_of(before[k]));
    }
    let ghost ak = after.map_values(|e: EntryView| key_of(e));
    assert(ak =~= keys_at(kv, order@)) by {
        assert forall|k: int| 0 <= k < ak.len() implies ak[k] == keys_at(kv, order@)[k] by {
            assert(after[k] == before[p[k]]);
            assert(kv[order@[k] as int] == key_of(before[order@[k] as int]));
        }
    }
    assert forall|a: int, b: int| 0 <= a < b < after.len() && entry_order(key_of(#[trigger] after[a]), key_of(#[trigger] after[b]), sorting) == Order::Equal implies p[a] < p[b] by {
        assert(after[a] == before[p[a]]);
        assert(after[b] == before[p[b]]);
        assert(keys@[order@[a] as int].view_key() == kv[order@[a] as int]);
        assert(keys@[order@[b] as int].view_key() == kv[order@[b] as int]);
    }
    *entries = out;
    assert(entry_views(entries@) =~= after);
    assert(sorted_from(entry_views(entries@), before, sorting, p));
}

/// True when an entry is visible: hidden entries only when they are shown, and then
/// only names whose lowercase form contains the (lowercase) query.
pub open spec fn visible(e: EntryView, show_hidden: bool, query: Seq<char>) -> bool {
    !(e.is_hidden && !show_hidden) && (query.len() == 0 || contains_text(lowercased(e.display_name), query))
}

/// True when `entry` should be visible for the current filter settings.
pub fn matches(entry: &EntryData, show_hidden: bool, query: &str) -> (r: bool)
    ensures
        r == visible(entry@, show_hidden, query@),
{
    if entry.is_hidden && !show_hidden {
        return false;
    }
    if query.unicode_len() == 0 {
        return true;
    }
    let lower = lowercase(entry.display_name.as_str());
    contains_str(lower.as_str(), query)
}


/// What a folder view lists: the entries the filter lets through (hidden entries only
/// when they are shown, and names containing the query in lowercase), in the order
/// `sorting` gives.
pub open spec fn listed(all: Seq<EntryView>, show_hidden: bool, query: Seq<char>) -> Seq<EntryView> {
    keep(all, |e: EntryView| visible(e, show_hidden, lowercased(query)))
}

/// The entries a folder view shows, filtered and sorted.
pub fn visible_entries(all: &Vec<EntryData>, show_hidden: bool, query: &str, sorting: Sorting) -> (r: Vec<EntryData>)
    ensures
        exists|p: Seq<int>| #[trigger] sorted_from(entry_views(r@), listed(entry_views(all@), show_hidden, query@), sorting, p),
{
    let lower = lowercase(query);
    let ghost views = entry_views(all@);
    let ghost p = |e: EntryView| visible(e, show_hidden, lowercased(query@));
    let mut shown: Vec<EntryData> = Vec::new();
    let mut i: usize = 0;
    assert(views.subrange(0, 0) =~= Seq::<EntryView>::empty());
    while i < all.len()
        invariant
            i <= all.len(),
            views == entry_views(all@),
            lower@ == lowercased(query@),
            p == (|e: EntryView| visible(e, show_hidden, lowercased(query@))),
            entry_views(shown@) == keep(views.subrange(0, i as int), p),
        decreases all.len() - i,
    {
        proof {
            lemma_keep_step(views, p, i as int);
        }
        if matches(&all[i], show_hidden, lower.as_str()) {
            let ghost before = entry_views(shown@);
            shown.push(all[i].copy());
            assert(entry_views(shown@) =~= before.push(views[i as int]));
        }
        i += 1;
    }
    assert(views.subrange(0, all.len() as int) =~= views);
    let ghost filtered = entry_views(shown@);
    assert(filtered == listed(views, show_hidden, query@));
    sort(&mut shown, sorting);
    let ghost w = choose|w: Seq<int>| #[trigger] sorted_from(entry_views(shown@), filtered, sorting, w);
    assert(sorted_from(entry_views(shown@), listed(views, show_hidden, query@), sorting, w));
    shown
}
/// Sorting by kind orders entries by their lowercase kind: in a sorted listing, of two
/// entries on the same side of the folders-first split whose lowercase kinds differ,
/// the one with the smaller kind text comes first (the larger when descending),
/// whatever their names.
pub proof fn lemma_kind_sort_orders_by_kind(
    after: Seq<EntryView>,
    before: Seq<EntryView>,
    s: Sorting,
    p: Seq<int>,
)
    requires
        sorted_from(after, before, s, p),
        s.key is Kind,
    ensures
        forall|i: int, j: int|
            0 <= i < j < after.len() && (!s.folders_first || after[i].is_directory
                == after[j].is_directory) && lowercased(after[i].kind) != lowercased(after[j].kind)
                ==> text_order(lowercased(#[trigger] after[i].kind), lowercased(#[trigger] after[j].kind))
                == if s.descending {
                Order::Greater
            } else {
                Order::Less
            },
{
    let keys = after.map_values(|e: EntryView| key_of(e));
    assert forall|i: int, j: int|
        0 <= i < j < after.len() && (!s.folders_first || after[i].is_directory
            == after[j].is_directory) && lowercased(after[i].kind) != lowercased(after[j].kind)
            implies text_order(lowercased(#[trigger] after[i].kind), lowercased(#[trigger] after[j].kind))
            == if s.descending {
            Order::Greater
        } else {
            Order::Less
        } by {
        let a = lowercased(after[i].kind);
        let b = lowercased(after[j].kind);
        assert(keys[i] == key_of(after[i]));
        assert(keys[j] == key_of(after[j]));
        assert(entry_order(keys[i], keys[j], s) != Order::Greater);
        lemma_text_order(a, b, b);
        lemma_text_order(b, a, a);
    }
}

} // verus!
