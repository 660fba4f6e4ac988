//! Linux paths as raw bytes, with the component rules of `std::path` on Unix.
//!
//! A path is split into components: an optional root (`/`), an optional leading
//! current-directory marker (`.`), then every non-empty piece between slashes except
//! `.`. Two paths are the same path when their components are equal, one path starts
//! with another when the other's components are a prefix of its own, and so on.
//! Derived paths (a parent, a stripped suffix) are written back with single slashes.

use vstd::prelude::*;
use vstd::utf8::*;

verus! {

/// The byte views of a list of paths.
pub open spec fn paths_view(v: Seq<Vec<u8>>) -> Seq<Seq<u8>> {
    v.map_values(|p: Vec<u8>| p@)
}

/// The component that stands for the root directory.
pub open spec fn root_comp() -> Seq<u8> {
    seq![47u8]
}

/// The component that stands for a leading `.`.
pub open spec fn cur_comp() -> Seq<u8> {
    seq![46u8]
}

/// The component that stands for `..`.
pub open spec fn parent_comp() -> Seq<u8> {
    seq![46u8, 46u8]
}

/// Close the piece being read: empty pieces and `.` are not components.
pub open spec fn flush(done: Seq<Seq<u8>>, cur: Seq<u8>) -> Seq<Seq<u8>> {
    if cur.len() == 0 || cur == cur_comp() {
        done
    } else {
        done.push(cur)
    }
}

/// Read a path byte by byte: the components closed so far and the piece being read.
pub open spec fn scan(p: Seq<u8>) -> (Seq<Seq<u8>>, Seq<u8>)
    decreases p.len(),
{
    if p.len() == 0 {
        (Seq::empty(), Seq::empty())
    } else {
        let prev = scan(p.drop_last());
        if p.last() == 47u8 {
            (flush(prev.0, prev.1), Seq::empty())
        } else {
            (prev.0, prev.1.push(p.last()))
        }
    }
}

/// The named components of a path: every piece between slashes but empty ones and `.`.
pub open spec fn body(p: Seq<u8>) -> Seq<Seq<u8>> {
    flush(scan(p).0, scan(p).1)
}

/// The root or leading `.` a path starts with, if any.
pub open spec fn lead(p: Seq<u8>) -> Seq<Seq<u8>> {
    if p.len() > 0 && p[0] == 47u8 {
        seq![root_comp()]
    } else if p.len() > 0 && p[0] == 46u8 && (p.len() == 1 || p[1] == 47u8) {
        seq![cur_comp()]
    } else {
        Seq::empty()
    }
}

/// All components of a path, as `Path::components` yields them.
pub open spec fn components(p: Seq<u8>) -> Seq<Seq<u8>> {
    lead(p) + body(p)
}

/// `Path == Path`: equal components.
pub open spec fn same_path(a: Seq<u8>, b: Seq<u8>) -> bool {
    components(a) == components(b)
}

/// `a` is a prefix of `b`, element by element.
pub open spec fn is_prefix<T>(a: Seq<T>, b: Seq<T>) -> bool {
    a.len() <= b.len() && b.subrange(0, a.len() as int) == a
}

/// `Path::starts_with`: the components of `base` begin the components of `p`.
pub open spec fn path_starts_with(p: Seq<u8>, base: Seq<u8>) -> bool {
    is_prefix(components(base), components(p))
}

/// A component that names an entry, rather than the root, `.` or `..`.
pub open spec fn is_normal(c: Seq<u8>) -> bool {
    c != root_comp() && c != cur_comp() && c != parent_comp()
}

/// Components joined by single slashes.
pub open spec fn join_pieces(cs: Seq<Seq<u8>>) -> Seq<u8>
    decreases cs.len(),
{
    if cs.len() == 0 {
        Seq::empty()
    } else if cs.len() == 1 {
        cs[0]
    } else {
        join_pieces(cs.drop_last()) + seq![47u8] + cs.last()
    }
}

/// The path written for a list of components.
pub open spec fn render(cs: Seq<Seq<u8>>) -> Seq<u8> {
    if cs.len() > 0 && cs[0] == root_comp() {
        seq![47u8] + join_pieces(cs.drop_first())
    } else {
        join_pieces(cs)
    }
}

/// `Path::file_name`: the last component, when it names an entry.
pub open spec fn file_name(p: Seq<u8>) -> Option<Seq<u8>> {
    let cs = components(p);
    if cs.len() > 0 && is_normal(cs.last()) {
        Some(cs.last())
    } else {
        None
    }
}

/// `Path::parent`: everything before the last component; none for the root or empty.
pub open spec fn parent(p: Seq<u8>) -> Option<Seq<u8>> {
    let cs = components(p);
    if cs.len() > 0 && cs.last() != root_comp() {
        Some(render(cs.drop_last()))
    } else {
        None
    }
}

/// `Path::strip_prefix`: what follows `base`, when `p` starts with it.
pub open spec fn strip_prefix(p: Seq<u8>, base: Seq<u8>) -> Option<Seq<u8>> {
    if path_starts_with(p, base) {
        Some(render(components(p).skip(components(base).len() as int)))
    } else {
        None
    }
}

/// `Path::is_absolute` on Unix.
pub open spec fn is_absolute(p: Seq<u8>) -> bool {
    p.len() > 0 && p[0] == 47u8
}

/// `Path::join`: an absolute `rel` replaces `base`; otherwise a slash is inserted when
/// `base` is non-empty and does not already end in one.
pub open spec fn join(base: Seq<u8>, rel: Seq<u8>) -> Seq<u8> {
    if is_absolute(rel) {
        rel
    } else if base.len() > 0 && base.last() != 47u8 {
        base + seq![47u8] + rel
    } else {
        base + rel
    }
}

/// Index of the last `.` in a name, or -1.
pub open spec fn last_dot(name: Seq<u8>) -> int
    decreases name.len(),
{
    if name.len() == 0 {
        -1
    } else if name.last() == 46u8 {
        name.len() - 1
    } else {
        last_dot(name.drop_last())
    }
}

/// How `Path::file_stem` and `Path::extension` split a file name at its last dot.
pub open spec fn split_name(name: Seq<u8>) -> (Seq<u8>, Option<Seq<u8>>) {
    let k = last_dot(name);
    if name == parent_comp() || k <= 0 {
        (name, None)
    } else {
        (name.subrange(0, k), Some(name.subrange(k + 1, name.len() as int)))
    }
}

/// `Path::file_stem`.
pub open spec fn file_stem(p: Seq<u8>) -> Option<Seq<u8>> {
    match file_name(p) {
        Some(name) => Some(split_name(name).0),
        None => None,
    }
}

/// `Path::extension`.
pub open spec fn extension(p: Seq<u8>) -> Option<Seq<u8>> {
    match file_name(p) {
        Some(name) => split_name(name).1,
        None => None,
    }
}

/// The text a path shows as: its bytes decoded as UTF-8, with every invalid sequence
/// replaced by U+FFFD (what `String::from_utf8_lossy` computes).
pub uninterp spec fn lossy_text(bytes: Seq<u8>) -> Seq<char>;

/// The text bytes show as: the decoded characters when they are valid UTF-8, and
/// what the lossy decoding gives otherwise.
pub open spec fn path_text(bytes: Seq<u8>) -> Seq<char> {
    if valid_utf8(bytes) {
        decode_utf8(bytes)
    } else {
        lossy_text(bytes)
    }
}

// -------------------------------------------------------------------- wrappers ----

/// `String::from_utf8_lossy`: valid UTF-8 decodes exactly; anything else is named
/// by `lossy_text`, which says no more than that the result depends on the bytes alone.
#[verifier::external_body]
pub(crate) fn lossy(bytes: &[u8]) -> (s: String)
    ensures
        s@ == lossy_text(bytes@),
        valid_utf8(bytes@) ==> s@ == decode_utf8(bytes@),
{
    String::from_utf8_lossy(bytes).into_owned()
}

/// `std::str::from_utf8(..)` turned into an owned text: present exactly for valid
/// UTF-8, and then the decoded characters.
#[verifier::external_body]
pub(crate) fn utf8_text(bytes: &[u8]) -> (r: Option<String>)
    ensures
        r is Some <==> valid_utf8(bytes@),
        r matches Some(s) ==> s@ == decode_utf8(bytes@),
{
    std::str::from_utf8(bytes).ok().map(|text| text.to_owned())
}

// ------------------------------------------------------------- executable code ----

/// Byte-wise equality.
pub fn bytes_eq(a: &[u8], b: &[u8]) -> (r: bool)
    ensures
        r == (a@ == b@),
{
    if a.len() != b.len() {
        return false;
    }
    let mut i: usize = 0;
    while i < a.len()
        invariant
            a.len() == b.len(),
            i <= a.len(),
            forall|j: int| 0 <= j < i ==> a@[j] == b@[j],
        decreases a.len() - i,
    {
        if a[i] != b[i] {
            return false;
        }
        i += 1;
    }
    assert(a@ =~= b@);
    true
}

/// A copy of a byte slice.
pub fn copy_bytes(a: &[u8]) -> (r: Vec<u8>)
    ensures
        r@ == a@,
{
    let mut r: Vec<u8> = Vec::new();
    let mut i: usize = 0;
    while i < a.len()
        invariant
            i <= a.len(),
            r@ == a@.subrange(0, i as int),
        decreases a.len() - i,
    {
        r.push(a[i]);
        assert(a@.subrange(0, i + 1) =~= a@.subrange(0, i as int).push(a@[i as int]));
        i += 1;
    }
    assert(a@.subrange(0, a.len() as int) =~= a@);
    r
}

/// Append the bytes of `b` to `a`.
pub fn extend_bytes(a: &mut Vec<u8>, b: &[u8])
    ensures
        final(a)@ == old(a)@ + b@,
{
    let mut i: usize = 0;
    while i < b.len()
        invariant
            i <= b.len(),
            a@ == old(a)@ + b@.subrange(0, i as int),
        decreases b.len() - i,
    {
        a.push(b[i]);
        assert(b@.subrange(0, i + 1) =~= b@.subrange(0, i as int).push(b@[i as int]));
        i += 1;
    }
    assert(b@.subrange(0, b.len() as int) =~= b@);
}

fn is_dot_piece(cur: &Vec<u8>) -> (r: bool)
    ensures
        r == (cur@ == cur_comp()),
{
    let r = cur.len() == 1 && cur[0] == 46u8;
    if r {
        assert(cur@ =~= cur_comp());
    }
    r
}

fn is_root_piece(cur: &Vec<u8>) -> (r: bool)
    ensures
        r == (cur@ == root_comp()),
{
    let r = cur.len() == 1 && cur[0] == 47u8;
    if r {
        assert(cur@ =~= root_comp());
    }
    r
}

fn is_dotdot_piece(cur: &Vec<u8>) -> (r: bool)
    ensures
        r == (cur@ == parent_comp()),
{
    let r = cur.len() == 2 && cur[0] == 46u8 && cur[1] == 46u8;
    if r {
        assert(cur@ =~= parent_comp());
    }
    r
}

/// A one-byte vector.
fn single(b: u8) -> (r: Vec<u8>)
    ensures
        r@ == seq![b],
{
    let mut r: Vec<u8> = Vec::new();
    r.push(b);
    assert(r@ =~= seq![b]);
    r
}

/// `Path::components`.
pub fn components_of(p: &[u8]) -> (cs: Vec<Vec<u8>>)
    ensures
        cs@.map_values(|c: Vec<u8>| c@) == components(p@),
{
    let mut done: Vec<Vec<u8>> = Vec::new();
    if p.len() > 0 && p[0] == 47u8 {
        done.push(single(47u8));
    } else if p.len() > 0 && p[0] == 46u8 && (p.len() == 1 || p[1] == 47u8) {
        done.push(single(46u8));
    }
    let ghost lead_part = done@.map_values(|c: Vec<u8>| c@);
    assert(lead_part =~= lead(p@));
    assert(p@.subrange(0, 0) =~= Seq::<u8>::empty());
    let mut cur: Vec<u8> = Vec::new();
    let mut i: usize = 0;
    while i < p.len()
        invariant
            i <= p.len(),
            lead_part == lead(p@),
            done@.map_values(|c: Vec<u8>| c@) == lead_part + scan(p@.subrange(0, i as int)).0,
            cur@ == scan(p@.subrange(0, i as int)).1,
        decreases p.len() - i,
    {
        let ghost pre = p@.subrange(0, i as int);
        let ghost next = p@.subrange(0, i + 1);
        assert(next.drop_last() =~= pre);
        let b = p[i];
        let ghost old_done = done@.map_values(|c: Vec<u8>| c@);
        if b == 47u8 {
            if cur.len() > 0 && !is_dot_piece(&cur) {
                let piece = cur;
                let ghost pv = piece@;
                done.push(piece);
                cur = Vec::new();
                assert(done@.map_values(|c: Vec<u8>| c@) =~= old_done.push(pv));
                assert(done@.map_values(|c: Vec<u8>| c@) =~= lead_part + scan(next).0);
            } else {
                cur = Vec::new();
            }
            assert(cur@ =~= scan(next).1);
        } else {
            cur.push(b);
            assert(done@.map_values(|c: Vec<u8>| c@) =~= lead_part + scan(next).0);
        }
        i += 1;
    }
    assert(p@.subrange(0, p.len() as int) =~= p@);
    let ghost old_done = done@.map_values(|c: Vec<u8>| c@);
    if cur.len() > 0 && !is_dot_piece(&cur) {
        let ghost pv = cur@;
        done.push(cur);
        assert(done@.map_values(|c: Vec<u8>| c@) =~= old_done.push(pv));
    }
    assert(done@.map_values(|c: Vec<u8>| c@) =~= lead(p@) + body(p@));
    done
}

/// Equality of two lists of components.
pub fn comps_eq(a: &Vec<Vec<u8>>, b: &Vec<Vec<u8>>) -> (r: bool)
    ensures
        r == (a@.map_values(|c: Vec<u8>| c@) == b@.map_values(|c: Vec<u8>| c@)),
{
    let ghost av = a@.map_values(|c: Vec<u8>| c@);
    let ghost bv = b@.map_values(|c: Vec<u8>| c@);
    if a.len() != b.len() {
        assert(av.len() != bv.len());
        return false;
    }
    let mut i: usize = 0;
    while i < a.len()
        invariant
            a.len() == b.len(),
            i <= a.len(),
            av == a@.map_values(|c: Vec<u8>| c@),
            bv == b@.map_values(|c: Vec<u8>| c@),
            forall|j: int| 0 <= j < i ==> av[j] == bv[j],
        decreases a.len() - i,
    {
        if !bytes_eq(a[i].as_slice(), b[i].as_slice()) {
            assert(av[i as int] != bv[i as int]);
            return false;
        }
        i += 1;
    }
    assert(av =~= bv);
    true
}

/// `Path == Path`.
pub fn path_eq(a: &[u8], b: &[u8]) -> (r: bool)
    ensures
        r == same_path(a@, b@),
{
    let ca = components_of(a);
    let cb = components_of(b);
    comps_eq(&ca, &cb)
}

/// True when the first `n` components of `p` are exactly `base`.
fn comps_prefix(base: &Vec<Vec<u8>>, p: &Vec<Vec<u8>>) -> (r: bool)
    ensures
        r == is_prefix(base@.map_values(|c: Vec<u8>| c@), p@.map_values(|c: Vec<u8>| c@)),
{
    let ghost bv = base@.map_values(|c: Vec<u8>| c@);
    let ghost pv = p@.map_values(|c: Vec<u8>| c@);
    if base.len() > p.len() {
        return false;
    }
    let mut i: usize = 0;
    while i < base.len()
        invariant
            base.len() <= p.len(),
            i <= base.len(),
            bv == base@.map_values(|c: Vec<u8>| c@),
            pv == p@.map_values(|c: Vec<u8>| c@),
            forall|j: int| 0 <= j < i ==> bv[j] == pv[j],
        decreases base.len() - i,
    {
        if !bytes_eq(base[i].as_slice(), p[i].as_slice()) {
            assert(pv.subrange(0, bv.len() as int)[i as int] != bv[i as int]);
            return false;
        }
        i += 1;
    }
    assert(pv.subrange(0, bv.len() as int) =~= bv);
    true
}

/// `Path::starts_with`.
pub fn starts_with(p: &[u8], base: &[u8]) -> (r: bool)
    ensures
        r == path_starts_with(p@, base@),
{
    let cp = components_of(p);
    let cb = components_of(base);
    comps_prefix(&cb, &cp)
}

/// Write components back as a path.
pub fn render_of(cs: &Vec<Vec<u8>>, from: usize) -> (r: Vec<u8>)
    requires
        from <= cs.len(),
    ensures
        r@ == render(cs@.map_values(|c: Vec<u8>| c@).skip(from as int)),
{
    let ghost all = cs@.map_values(|c: Vec<u8>| c@);
    let ghost rest = all.skip(from as int);
    let mut r: Vec<u8> = Vec::new();
    let mut i: usize = from;
    let rooted = from < cs.len() && is_root_piece(&cs[from]);
    proof {
        if from < cs.len() {
            assert(rest[0] == all[from as int]);
        }
    }
    if rooted {
        r.push(47u8);
        i = from + 1;
    }
    let start = i;
    let ghost pieces = all.subrange(start as int, cs.len() as int);
    proof {
        if rooted {
            assert(rest.drop_first() =~= pieces);
        } else {
            assert(rest =~= pieces);
        }
    }
    let ghost prefix = r@;
    while i < cs.len()
        invariant
            start <= i <= cs.len(),
            all == cs@.map_values(|c: Vec<u8>| c@),
            r@ == prefix + join_pieces(all.subrange(start as int, i as int)),
        decreases cs.len() - i,
    {
        let ghost before = all.subrange(start as int, i as int);
        let ghost after = all.subrange(start as int, i + 1);
        assert(after.drop_last() =~= before);
        if i > start {
            r.push(47u8);
        }
        extend_bytes(&mut r, cs[i].as_slice());
        proof {
            if i > start {
                assert(r@ =~= prefix + (join_pieces(before) + seq![47u8] + after.last()));
            } else {
                assert(before.len() == 0);
                assert(r@ =~= prefix + join_pieces(after));
            }
        }
        i += 1;
    }
    proof {
        if rooted {
            assert(r@ =~= seq![47u8] + join_pieces(rest.drop_first()));
        } else {
            assert(prefix.len() == 0);
            assert(r@ =~= join_pieces(rest));
        }
    }
    r
}

/// `Path::file_name`.
pub fn file_name_of(p: &[u8]) -> (r: Option<Vec<u8>>)
    ensures
        r matches Some(v) ==> file_name(p@) == Some(v@),
        r is None ==> file_name(p@) is None,
{
    let cs = components_of(p);
    let ghost all = cs@.map_values(|c: Vec<u8>| c@);
    if cs.len() == 0 {
        return None;
    }
    let last = cs[cs.len() - 1].clone();
    assert(last@ =~= all.last());
    let special = is_root_piece(&last) || is_dot_piece(&last) || is_dotdot_piece(&last);
    if special {
        None
    } else {
        Some(last)
    }
}

/// `Path::parent`.
pub fn parent_of(p: &[u8]) -> (r: Option<Vec<u8>>)
    ensures
        r matches Some(v) ==> parent(p@) == Some(v@),
        r is None ==> parent(p@) is None,
{
    let cs = components_of(p);
    let ghost all = cs@.map_values(|c: Vec<u8>| c@);
    if cs.len() == 0 {
        return None;
    }
    let n = cs.len();
    if is_root_piece(&cs[n - 1]) {
        assert(all.last() == root_comp());
        return None;
    }
    let mut front = cs;
    front.pop();
    assert(front@.map_values(|c: Vec<u8>| c@) =~= all.drop_last());
    let r = render_of(&front, 0);
    assert(front@.map_values(|c: Vec<u8>| c@).skip(0) =~= all.drop_last());
    Some(r)
}

/// `Path::strip_prefix`.
pub fn strip_prefix_of(p: &[u8], base: &[u8]) -> (r: Option<Vec<u8>>)
    ensures
        r matches Some(v) ==> strip_prefix(p@, base@) == Some(v@),
        r is None ==> strip_prefix(p@, base@) is None,
{
    let cp = components_of(p);
    let cb = components_of(base);
    if !comps_prefix(&cb, &cp) {
        return None;
    }
    let r = render_of(&cp, cb.len());
    Some(r)
}

/// `Path::join`.
pub fn join_path(base: &[u8], rel: &[u8]) -> (r: Vec<u8>)
    ensures
        r@ == join(base@, rel@),
{
    if rel.len() > 0 && rel[0] == 47u8 {
        return copy_bytes(rel);
    }
    let mut r = copy_bytes(base);
    if base.len() > 0 && base[base.len() - 1] != 47u8 {
        r.push(47u8);
    }
    extend_bytes(&mut r, rel);
    r
}

/// `Path::is_absolute`.
pub fn is_absolute_path(p: &[u8]) -> (r: bool)
    ensures
        r == is_absolute(p@),
{
    p.len() > 0 && p[0] == 47u8
}

/// The position just after the last dot in `name`, or zero when there is none.
fn last_dot_of(name: &[u8]) -> (r: usize)
    ensures
        r as int == last_dot(name@) + 1,
{
    let mut k: usize = name.len();
    assert(name@.subrange(0, k as int) =~= name@);
    while k > 0 && name[k - 1] != 46u8
        invariant
            k <= name.len(),
            last_dot(name@) == last_dot(name@.subrange(0, k as int)),
        decreases k,
    {
        let ghost s = name@.subrange(0, k as int);
        assert(s.drop_last() =~= name@.subrange(0, k - 1));
        k -= 1;
    }
    proof {
        let s = name@.subrange(0, k as int);
        if k == 0 {
            assert(s.len() == 0);
        } else {
            assert(s.last() == 46u8);
        }
    }
    k
}

proof fn lemma_last_dot_bound(name: Seq<u8>)
    ensures
        -1 <= last_dot(name) < name.len(),
    decreases name.len(),
{
    if name.len() > 0 && name.last() != 46u8 {
        lemma_last_dot_bound(name.drop_last());
    }
}

/// `Path::file_stem` and `Path::extension` of one file name.
pub fn split_name_of(name: &[u8]) -> (r: (Vec<u8>, Option<Vec<u8>>))
    ensures
        r.0@ == split_name(name@).0,
        r.1 matches Some(e) ==> split_name(name@).1 == Some(e@),
        r.1 is None ==> split_name(name@).1 is None,
{
    let k = last_dot_of(name);
    proof {
        lemma_last_dot_bound(name@);
    }
    let dotdot = name.len() == 2 && name[0] == 46u8 && name[1] == 46u8;
    assert(dotdot == (name@ == parent_comp())) by {
        if name@ == parent_comp() {
            assert(name@[0] == 46u8 && name@[1] == 46u8);
        }
        if dotdot {
            assert(name@ =~= parent_comp());
        }
    }
    if dotdot || k <= 1 {
        return (copy_bytes(name), None);
    }
    let mut stem: Vec<u8> = Vec::new();
    let mut i: usize = 0;
    while i < k - 1
        invariant
            k <= name.len(),
            i <= k - 1,
            stem@ == name@.subrange(0, i as int),
        decreases k - 1 - i,
    {
        stem.push(name[i]);
        assert(name@.subrange(0, i + 1) =~= name@.subrange(0, i as int).push(name@[i as int]));
        i += 1;
    }
    let mut ext: Vec<u8> = Vec::new();
    let mut j: usize = k;
    while j < name.len()
        invariant
            k <= j <= name.len(),
            ext@ == name@.subrange(k as int, j as int),
        decreases name.len() - j,
    {
        ext.push(name[j]);
        assert(name@.subrange(k as int, j + 1) =~= name@.subrange(k as int, j as int).push(
            name@[j as int],
        ));
        j += 1;
    }
    (stem, Some(ext))
}

/// `Path::file_stem`.
pub fn file_stem_of(p: &[u8]) -> (r: Option<Vec<u8>>)
    ensures
        r matches Some(v) ==> file_stem(p@) == Some(v@),
        r is None ==> file_stem(p@) is None,
{
    match file_name_of(p) {
        Some(name) => {
            let (stem, _) = split_name_of(name.as_slice());
            Some(stem)
        },
        None => None,
    }
}

/// `Path::extension`.
pub fn extension_of(p: &[u8]) -> (r: Option<Vec<u8>>)
    ensures
        r matches Some(v) ==> extension(p@) == Some(v@),
        r is None ==> extension(p@) is None,
{
    match file_name_of(p) {
        Some(name) => {
            let (_, ext) = split_name_of(name.as_slice());
            ext
        },
        None => None,
    }
}

/// Every path starts with itself.
pub proof fn lemma_starts_with_self(p: Seq<u8>)
    ensures
        path_starts_with(p, p),
{
    assert(components(p).subrange(0, components(p).len() as int) =~= components(p));
}

/// Starting with another path is transitive.
pub proof fn lemma_starts_with_trans(a: Seq<u8>, b: Seq<u8>, c: Seq<u8>)
    requires
        path_starts_with(a, b),
        path_starts_with(b, c),
    ensures
        path_starts_with(a, c),
{
    let ca = components(a);
    let cb = components(b);
    let cc = components(c);
    assert(ca.subrange(0, cc.len() as int) =~= cb.subrange(0, cc.len() as int));
}

} // verus!
