//! User tags.
//!
//! Tags are Teral's own metadata, not a filesystem feature: a name, a colour, and the
//! files carrying it. Teral rewrites the stored paths when it renames or moves a file
//! itself, so a tag follows its file instead of pointing at a hole.

use crate::paths::{
    copy_bytes, join, join_path, path_eq, paths_view, path_starts_with, same_path, starts_with,
    strip_prefix, strip_prefix_of,
};
use crate::persistence::{decode_path, decoded, encode_path, hex_text, lemma_path_round_trip};
use crate::seqs::{
    first_index, keep, lemma_first_index_facts, lemma_first_index_prefix, lemma_first_index_step,
    lemma_first_index_whole, lemma_keep_facts, lemma_keep_step,
};
use crate::text::{
    ascii_ci_eq, ascii_lower, eq_ignore_ascii_case, escape, escaped, is_blank, is_blank_str,
    push_str, trim, trimmed,
};
use crate::theme::{is_color, valid_color};
use vstd::prelude::*;
use vstd::utf8::encode_utf8;

verus! {

/// Tag file format version understood by this build.
pub const TAGS_VERSION: u32 = 2;

/// One tag and the files carrying it.
#[derive(Debug)]
pub struct Tag {
    pub name: String,
    pub color: String,
    pub paths: Vec<Vec<u8>>,
}

/// A tag as plain values: name, colour, paths.
pub type TagView = (Seq<char>, Seq<char>, Seq<Seq<u8>>);

impl View for Tag {
    type V = TagView;

    open spec fn view(&self) -> TagView {
        (self.name@, self.color@, paths_view(self.paths@))
    }
}

fn copy_paths(paths: &Vec<Vec<u8>>) -> (r: Vec<Vec<u8>>)
    ensures
        paths_view(r@) == paths_view(paths@),
{
    let mut r: Vec<Vec<u8>> = Vec::new();
    let mut i: usize = 0;
    while i < paths.len()
        invariant
            i <= paths.len(),
            paths_view(r@) == paths_view(paths@).subrange(0, i as int),
        decreases paths.len() - i,
    {
        let p = copy_bytes(paths[i].as_slice());
        let ghost before = r@;
        r.push(p);
        assert(r@ == before.push(p));
        assert(paths_view(r@) =~= paths_view(before).push(p@));
        assert(paths_view(r@) =~= paths_view(paths@).subrange(0, i + 1));
        i += 1;
    }
    assert(paths_view(paths@).subrange(0, paths.len() as int) =~= paths_view(paths@));
    r
}

impl Clone for Tag {
    fn clone(&self) -> (r: Self)
        ensures
            r@ == self@,
    {
        Tag {
            name: self.name.clone(),
            color: self.color.clone(),
            paths: copy_paths(&self.paths),
        }
    }
}

/// Tags are identified by name, compared without case.
pub open spec fn named(name: Seq<char>) -> spec_fn(TagView) -> bool {
    |t: TagView| ascii_ci_eq(t.0, name)
}

impl Tag {
    /// Tags are identified by name, compared without case so "Work" and "work" are one.
    pub fn matches(&self, name: &str) -> (r: bool)
        ensures
            r == ascii_ci_eq(self.name@, name@),
    {
        eq_ignore_ascii_case(self.name.as_str(), name)
    }
}

/// The whole tag store.
#[derive(Debug)]
pub struct Tags {
    pub tags: Vec<Tag>,
}

impl View for Tags {
    type V = Seq<TagView>;

    open spec fn view(&self) -> Seq<TagView> {
        self.tags@.map_values(|t: Tag| t@)
    }
}

impl Clone for Tags {
    fn clone(&self) -> (r: Self)
        ensures
            r@ == self@,
    {
        let mut tags: Vec<Tag> = Vec::new();
        let mut i: usize = 0;
        while i < self.tags.len()
            invariant
                i <= self.tags.len(),
                tags@.map_values(|t: Tag| t@) == self@.subrange(0, i as int),
            decreases self.tags.len() - i,
        {
            let t = self.tags[i].clone();
            let ghost before = tags@;
            let ghost tv = t@;
            tags.push(t);
            assert(tags@.map_values(|t: Tag| t@) =~= before.map_values(|t: Tag| t@).push(tv));
            assert(tags@.map_values(|t: Tag| t@) =~= self@.subrange(0, i + 1));
            i += 1;
        }
        assert(self@.subrange(0, self.tags.len() as int) =~= self@);
        Tags { tags }
    }
}

/// The path at `p`'s place in a tag, compared as paths.
pub open spec fn at_path(p: Seq<u8>) -> spec_fn(Seq<u8>) -> bool {
    |q: Seq<u8>| same_path(q, p)
}

/// Tagging (`true`) or untagging (`false`) one path: a path not yet carried is added at
/// the end; the first carried entry that is the same path is removed.
pub open spec fn toggle(paths: Seq<Seq<u8>>, p: Seq<u8>, tagged: bool) -> Seq<Seq<u8>> {
    match first_index(paths, at_path(p)) {
        None => if tagged {
            paths.push(p)
        } else {
            paths
        },
        Some(i) => if tagged {
            paths
        } else {
            paths.remove(i)
        },
    }
}

/// Tagging or untagging several paths, in order.
pub open spec fn toggle_all(paths: Seq<Seq<u8>>, ps: Seq<Seq<u8>>, tagged: bool) -> Seq<Seq<u8>>
    decreases ps.len(),
{
    if ps.len() == 0 {
        paths
    } else {
        toggle(toggle_all(paths, ps.drop_last(), tagged), ps.last(), tagged)
    }
}

/// `set_tagged` on the store: only the first tag with the name changes.
pub open spec fn set_tagged_spec(
    tags: Seq<TagView>,
    name: Seq<char>,
    ps: Seq<Seq<u8>>,
    tagged: bool,
) -> Seq<TagView> {
    match first_index(tags, named(name)) {
        None => tags,
        Some(i) => tags.update(i, (tags[i].0, tags[i].1, toggle_all(tags[i].2, ps, tagged))),
    }
}

/// Where a stored path goes when `from` moves to `to`: itself becomes `to`, anything
/// inside follows with the same relative path, and everything else stays.
pub open spec fn relocated(p: Seq<u8>, from: Seq<u8>, to: Seq<u8>) -> Seq<u8> {
    if same_path(p, from) {
        to
    } else {
        match strip_prefix(p, from) {
            Some(rel) => join(to, rel),
            None => p,
        }
    }
}

/// `relocate` on the store.
pub open spec fn relocate_spec(tags: Seq<TagView>, from: Seq<u8>, to: Seq<u8>) -> Seq<TagView> {
    tags.map_values(
        |t: TagView| (t.0, t.1, t.2.map_values(|p: Seq<u8>| relocated(p, from, to))),
    )
}

/// The paths that survive forgetting `path`: neither it nor anything inside it.
pub open spec fn survives(path: Seq<u8>) -> spec_fn(Seq<u8>) -> bool {
    |q: Seq<u8>| !same_path(q, path) && !path_starts_with(q, path)
}

/// `forget` on the store.
pub open spec fn forget_spec(tags: Seq<TagView>, path: Seq<u8>) -> Seq<TagView> {
    tags.map_values(|t: TagView| (t.0, t.1, keep(t.2, survives(path))))
}

/// Tags not carrying `name`.
pub open spec fn other_than(name: Seq<char>) -> spec_fn(TagView) -> bool {
    |t: TagView| !ascii_ci_eq(t.0, name)
}

/// Whether a tag carries `path`.
pub open spec fn carries(path: Seq<u8>) -> spec_fn(TagView) -> bool {
    |t: TagView| first_index(t.2, at_path(path)) is Some
}

/// Whether the store says `path` carries `name`.
pub open spec fn tagged_spec(tags: Seq<TagView>, name: Seq<char>, path: Seq<u8>) -> bool {
    match first_index(tags, named(name)) {
        Some(i) => first_index(tags[i].2, at_path(path)) is Some,
        None => false,
    }
}

/// The tags Teral starts with.
pub open spec fn default_tags() -> Seq<TagView> {
    seq![
        ("Important"@, "#e0a63c"@, Seq::empty()),
        ("Work"@, "#6f9fd8"@, Seq::empty()),
        ("Personal"@, "#8fd08f"@, Seq::empty()),
        ("Archive"@, "#b58bd0"@, Seq::empty()),
    ]
}

fn new_tag(name: &str, color: &str) -> (r: Tag)
    ensures
        r@ == (name@, color@, Seq::<Seq<u8>>::empty()),
{
    let t = Tag { name: String::from_str(name), color: String::from_str(color), paths: Vec::new() };
    assert(paths_view(t.paths@) =~= Seq::<Seq<u8>>::empty());
    t
}

/// First position in `paths` that is the same path as `p`.
pub(crate) fn path_position(paths: &Vec<Vec<u8>>, p: &[u8]) -> (r: Option<usize>)
    ensures
        r matches Some(i) ==> first_index(paths_view(paths@), at_path(p@)) == Some(i as int) && i
            < paths.len(),
        r is None ==> first_index(paths_view(paths@), at_path(p@)) is None,
{
    let ghost pv = paths_view(paths@);
    let mut i: usize = 0;
    while i < paths.len()
        invariant
            i <= paths.len(),
            pv == paths_view(paths@),
            first_index(pv.subrange(0, i as int), at_path(p@)) is None,
        decreases paths.len() - i,
    {
        proof {
            lemma_first_index_step(pv, at_path(p@), i as int);
        }
        if path_eq(paths[i].as_slice(), p) {
            proof {
                lemma_first_index_prefix(pv, at_path(p@), i + 1);
            }
            return Some(i);
        }
        i += 1;
    }
    proof {
        lemma_first_index_whole(pv, at_path(p@));
    }
    None
}

impl Tags {
    /// Teral's starting set of tags, with nothing tagged yet.
    pub fn defaults() -> (r: Self)
        ensures
            r@ == default_tags(),
    {
        let mut tags: Vec<Tag> = Vec::new();
        tags.push(new_tag("Important", "#e0a63c"));
        tags.push(new_tag("Work", "#6f9fd8"));
        tags.push(new_tag("Personal", "#8fd08f"));
        tags.push(new_tag("Archive", "#b58bd0"));
        let r = Tags { tags };
        assert(r@ =~= default_tags());
        r
    }

    /// Position of the first tag with this name.
    pub fn position(&self, name: &str) -> (r: Option<usize>)
        ensures
            r matches Some(i) ==> first_index(self@, named(name@)) == Some(i as int) && i
                < self.tags.len(),
            r is None ==> first_index(self@, named(name@)) is None,
    {
        let mut i: usize = 0;
        while i < self.tags.len()
            invariant
                i <= self.tags.len(),
                first_index(self@.subrange(0, i as int), named(name@)) is None,
            decreases self.tags.len() - i,
        {
            proof {
                lemma_first_index_step(self@, named(name@), i as int);
            }
            if self.tags[i].matches(name) {
                proof {
                    lemma_first_index_prefix(self@, named(name@), i + 1);
                }
                return Some(i);
            }
            i += 1;
        }
        proof {
            lemma_first_index_whole(self@, named(name@));
        }
        None
    }

    /// The first tag with this name, compared without case.
    pub fn get(&self, name: &str) -> (r: Option<&Tag>)
        ensures
            r matches Some(t) ==> first_index(self@, named(name@)) matches Some(i) && t@
                == self@[i],
            r is None ==> first_index(self@, named(name@)) is None,
    {
        match self.position(name) {
            Some(i) => Some(&self.tags[i]),
            None => None,
        }
    }

    /// Create a tag, refusing a blank name or one that is already taken (without case).
    /// The name is stored trimmed.
    pub fn create(&mut self, name: &str, color: &str) -> (r: Result<(), String>)
        ensures
            is_blank(name@) ==> (r matches Err(m) && m@ == "a tag needs a name"@) && final(self)@
                == old(self)@,
            !is_blank(name@) && first_index(old(self)@, named(trimmed(name@))) is Some ==> (r matches Err(m)
                && m@ == "there is already a tag called "@ + trimmed(name@)) && final(self)@ == old(self)@,
            !is_blank(name@) && first_index(old(self)@, named(trimmed(name@))) is None ==> r is Ok
                && final(self)@ == old(self)@.push((trimmed(name@), color@, Seq::empty())),
    {
        let blank = is_blank_str(name);
        if blank {
            return Err(String::from_str("a tag needs a name"));
        }
        let clean = trim(name);
        if self.position(clean.as_str()).is_some() {
            let mut message = String::from_str("there is already a tag called ");
            push_str(&mut message, clean.as_str());
            return Err(message);
        }
        let tag = new_tag(clean.as_str(), color);
        let ghost before = self.tags@;
        let ghost tv = tag@;
        self.tags.push(tag);
        assert(self@ =~= before.map_values(|t: Tag| t@).push(tv));
        Ok(())
    }

    /// Rename and recolour a tag, keeping everything it is attached to.
    pub fn update(&mut self, current: &str, name: &str, color: &str) -> (r: Result<(), String>)
        ensures
            is_blank(name@) ==> (r matches Err(m) && m@ == "a tag needs a name"@) && final(self)@
                == old(self)@,
            !is_blank(name@) && !ascii_ci_eq(trimmed(name@), current@) && first_index(
                old(self)@,
                named(trimmed(name@)),
            ) is Some ==> (r matches Err(m) && m@ == "there is already a tag called "@ + trimmed(
                name@,
            )) && final(self)@ == old(self)@,
            !is_blank(name@) && (ascii_ci_eq(trimmed(name@), current@) || first_index(
                old(self)@,
                named(trimmed(name@)),
            ) is None) ==> match first_index(old(self)@, named(current@)) {
                None => (r matches Err(m) && m@ == "there is no tag called "@ + current@)
                    && final(self)@ == old(self)@,
                Some(i) => r is Ok && final(self)@ == old(self)@.update(
                    i,
                    (trimmed(name@), color@, old(self)@[i].2),
                ),
            },
    {
        if is_blank_str(name) {
            return Err(String::from_str("a tag needs a name"));
        }
        let clean = trim(name);
        if !eq_ignore_ascii_case(clean.as_str(), current) && self.position(clean.as_str()).is_some() {
            let mut message = String::from_str("there is already a tag called ");
            push_str(&mut message, clean.as_str());
            return Err(message);
        }
        match self.position(current) {
            None => {
                let mut message = String::from_str("there is no tag called ");
                push_str(&mut message, current);
                Err(message)
            },
            Some(i) => {
                let paths = copy_paths(&self.tags[i].paths);
                let tag = Tag { name: clean, color: String::from_str(color), paths };
                self.tags.set(i, tag);
                assert(self@ =~= old(self)@.update(
                    i as int,
                    (trimmed(name@), color@, old(self)@[i as int].2),
                ));
                Ok(())
            },
        }
    }

    /// Remove every tag with this name.
    pub fn delete(&mut self, name: &str)
        ensures
            final(self)@ == keep(old(self)@, other_than(name@)),
    {
        let mut rest: Vec<Tag> = Vec::new();
        std::mem::swap(&mut rest, &mut self.tags);
        let ghost all = rest@.map_values(|t: Tag| t@);
        assert(all == old(self)@);
        let count = rest.len();
        assert(all.len() == count);
        let mut k: usize = 0;
        assert(self@ =~= keep(all.subrange(0, 0), other_than(name@)));
        while rest.len() > 0
            invariant
                k + rest@.len() == all.len(),
                all.len() <= usize::MAX,
                rest@.map_values(|t: Tag| t@) == all.skip(k as int),
                self@ == keep(all.subrange(0, k as int), other_than(name@)),
            decreases rest@.len(),
        {
            let ghost rv = rest@.map_values(|t: Tag| t@);
            assert(rv[0] == all.skip(k as int)[0]);
            let tag = rest.remove(0);
            assert(tag@ == all[k as int]);
            proof {
                lemma_keep_step(all, other_than(name@), k as int);
            }
            let ghost kept_before = self.tags@;
            let ghost tv = tag@;
            if !tag.matches(name) {
                self.tags.push(tag);
                assert(self@ =~= kept_before.map_values(|t: Tag| t@).push(tv));
            }
            assert(rest@.map_values(|t: Tag| t@) =~= rv.skip(1));
            assert(rest@.map_values(|t: Tag| t@) =~= all.skip(k + 1));
            k += 1;
        }
        assert(all.subrange(0, k as int) =~= all);
    }

    /// Whether `path` carries `name`.
    pub fn is_tagged(&self, name: &str, path: &[u8]) -> (r: bool)
        ensures
            r == tagged_spec(self@, name@, path@),
    {
        match self.position(name) {
            Some(i) => path_position(&self.tags[i].paths, path).is_some(),
            None => false,
        }
    }

    /// Add (`tagged`) or remove a tag on a set of files. A path is added once, at the
    /// end; removing takes away the first entry that is the same path.
    pub fn set_tagged(&mut self, name: &str, paths: &Vec<Vec<u8>>, tagged: bool)
        ensures
            final(self)@ == set_tagged_spec(old(self)@, name@, paths_view(paths@), tagged),
    {
        let ghost ps = paths_view(paths@);
        let i = match self.position(name) {
            Some(i) => i,
            None => return,
        };
        let ghost start = old(self)@[i as int];
        let mut k: usize = 0;
        assert(ps.subrange(0, 0) =~= Seq::<Seq<u8>>::empty());
        assert(self@ =~= old(self)@.update(
            i as int,
            (start.0, start.1, toggle_all(start.2, ps.subrange(0, 0), tagged)),
        ));
        while k < paths.len()
            invariant
                k <= paths.len(),
                i < self.tags.len(),
                ps == paths_view(paths@),
                start == old(self)@[i as int],
                i < old(self)@.len(),
                self@ == old(self)@.update(
                    i as int,
                    (start.0, start.1, toggle_all(start.2, ps.subrange(0, k as int), tagged)),
                ),
            decreases paths.len() - k,
        {
            let ghost before = self@;
            let ghost sub = ps.subrange(0, k + 1);
            assert(sub.drop_last() =~= ps.subrange(0, k as int));
            let existing = path_position(&self.tags[i].paths, paths[k].as_slice());
            let ghost cur_tag = self@[i as int];
            let ghost before_tags = self@;
            assert(cur_tag.2 == toggle_all(start.2, ps.subrange(0, k as int), tagged));
            assert(ps[k as int] == paths@[k as int]@);
            assert(sub.last() == ps[k as int]);
            assert(toggle_all(start.2, sub, tagged) == toggle(cur_tag.2, ps[k as int], tagged));
            match existing {
                None => {
                    if tagged {
                        let mut current = copy_paths(&self.tags[i].paths);
                        let ghost cv = paths_view(current@);
                        let p = copy_bytes(paths[k].as_slice());
                        current.push(p);
                        assert(paths_view(current@) =~= cv.push(p@));
                        let tag = Tag {
                            name: self.tags[i].name.clone(),
                            color: self.tags[i].color.clone(),
                            paths: current,
                        };
                        self.tags.set(i, tag);
                    }
                },
                Some(j) => {
                    if !tagged {
                        let mut current = copy_paths(&self.tags[i].paths);
                        let ghost cv = paths_view(current@);
                        assert(cv.len() == current@.len());
                        current.remove(j);
                        assert(paths_view(current@) =~= cv.remove(j as int));
                        let tag = Tag {
                            name: self.tags[i].name.clone(),
                            color: self.tags[i].color.clone(),
                            paths: current,
                        };
                        self.tags.set(i, tag);
                    }
                },
            }
            assert(self@[i as int] == (start.0, start.1, toggle(cur_tag.2, ps[k as int], tagged)));
            assert(self@ =~= before_tags.update(
                i as int,
                (start.0, start.1, toggle(cur_tag.2, ps[k as int], tagged)),
            ));
            assert(self@ =~= old(self)@.update(
                i as int,
                (start.0, start.1, toggle_all(start.2, ps.subrange(0, k + 1), tagged)),
            ));
            k += 1;
        }
        assert(ps.subrange(0, paths.len() as int) =~= ps);
    }

    /// Every tag carried by `path`, in store order.
    pub fn for_path(&self, path: &[u8]) -> (r: Vec<&Tag>)
        ensures
            r@.map_values(|t: &Tag| t@) == keep(self@, carries(path@)),
    {
        let mut r: Vec<&Tag> = Vec::new();
        let mut i: usize = 0;
        while i < self.tags.len()
            invariant
                i <= self.tags.len(),
                r@.map_values(|t: &Tag| t@) == keep(self@.subrange(0, i as int), carries(path@)),
            decreases self.tags.len() - i,
        {
            proof {
                lemma_keep_step(self@, carries(path@), i as int);
            }
            if path_position(&self.tags[i].paths, path).is_some() {
                r.push(&self.tags[i]);
            }
            assert(r@.map_values(|t: &Tag| t@) =~= keep(self@.subrange(0, i + 1), carries(path@)));
            i += 1;
        }
        assert(self@.subrange(0, self.tags.len() as int) =~= self@);
        r
    }

    /// Follow a file that Teral moved or renamed, including anything inside it.
    pub fn relocate(&mut self, from: &[u8], to: &[u8])
        ensures
            final(self)@ == relocate_spec(old(self)@, from@, to@),
    {
        let mut t: usize = 0;
        while t < self.tags.len()
            invariant
                t <= self.tags.len(),
                self.tags.len() == old(self).tags.len(),
                forall|j: int|
                    0 <= j < t ==> #[trigger] self@[j] == relocate_spec(old(self)@, from@, to@)[j],
                forall|j: int| t <= j < self.tags.len() ==> #[trigger] self@[j] == old(self)@[j],
            decreases self.tags.len() - t,
        {
            let ghost orig = self@[t as int];
            let mut moved: Vec<Vec<u8>> = Vec::new();
            let mut k: usize = 0;
            while k < self.tags[t].paths.len()
                invariant
                    t < self.tags.len(),
                    k <= self.tags[t as int].paths.len(),
                    orig == self@[t as int],
                    paths_view(moved@) == orig.2.subrange(0, k as int).map_values(
                        |p: Seq<u8>| relocated(p, from@, to@),
                    ),
                decreases self.tags[t as int].paths.len() - k,
            {
                let p = &self.tags[t].paths[k];
                let next = if path_eq(p.as_slice(), from) {
                    copy_bytes(to)
                } else {
                    match strip_prefix_of(p.as_slice(), from) {
                        Some(rel) => join_path(to, rel.as_slice()),
                        None => copy_bytes(p.as_slice()),
                    }
                };
                let ghost mb = paths_view(moved@);
                let ghost nv = next@;
                moved.push(next);
                assert(paths_view(moved@) =~= mb.push(nv));
                assert(orig.2.subrange(0, k + 1) =~= orig.2.subrange(0, k as int).push(orig.2[k as int]));
                assert(paths_view(moved@) =~= orig.2.subrange(0, k + 1).map_values(
                    |p: Seq<u8>| relocated(p, from@, to@),
                ));
                k += 1;
            }
            assert(orig.2.subrange(0, orig.2.len() as int) =~= orig.2);
            let tag = Tag {
                name: self.tags[t].name.clone(),
                color: self.tags[t].color.clone(),
                paths: moved,
            };
            let ghost before = self.tags@;
            self.tags.set(t, tag);
            assert(self@[t as int] == relocate_spec(old(self)@, from@, to@)[t as int]);
            assert forall|j: int| 0 <= j < self.tags.len() && j != t implies #[trigger] self@[j]
                == before.map_values(|x: Tag| x@)[j] by {}
            t += 1;
        }
        assert(self@ =~= relocate_spec(old(self)@, from@, to@));
    }

    /// Forget a file Teral deleted, including anything inside it.
    pub fn forget(&mut self, path: &[u8])
        ensures
            final(self)@ == forget_spec(old(self)@, path@),
    {
        let mut t: usize = 0;
        while t < self.tags.len()
            invariant
                t <= self.tags.len(),
                self.tags.len() == old(self).tags.len(),
                forall|j: int|
                    0 <= j < t ==> #[trigger] self@[j] == forget_spec(old(self)@, path@)[j],
                forall|j: int| t <= j < self.tags.len() ==> #[trigger] self@[j] == old(self)@[j],
            decreases self.tags.len() - t,
        {
            let ghost orig = self@[t as int];
            let mut kept: Vec<Vec<u8>> = Vec::new();
            let mut k: usize = 0;
            while k < self.tags[t].paths.len()
                invariant
                    t < self.tags.len(),
                    k <= self.tags[t as int].paths.len(),
                    orig == self@[t as int],
                    paths_view(kept@) == keep(orig.2.subrange(0, k as int), survives(path@)),
                decreases self.tags[t as int].paths.len() - k,
            {
                proof {
                    lemma_keep_step(orig.2, survives(path@), k as int);
                }
                let p = &self.tags[t].paths[k];
                let ghost kb = paths_view(kept@);
                if !path_eq(p.as_slice(), path) && !starts_with(p.as_slice(), path) {
                    let c = copy_bytes(p.as_slice());
                    let ghost cv = c@;
                    kept.push(c);
                    assert(paths_view(kept@) =~= kb.push(cv));
                }
                assert(paths_view(kept@) =~= keep(orig.2.subrange(0, k + 1), survives(path@)));
                k += 1;
            }
            assert(orig.2.subrange(0, orig.2.len() as int) =~= orig.2);
            let tag = Tag {
                name: self.tags[t].name.clone(),
                color: self.tags[t].color.clone(),
                paths: kept,
            };
            let ghost before = self.tags@;
            self.tags.set(t, tag);
            assert(self@[t as int] == forget_spec(old(self)@, path@)[t as int]);
            assert forall|j: int| 0 <= j < self.tags.len() && j != t implies #[trigger] self@[j]
                == before.map_values(|x: Tag| x@)[j] by {}
            t += 1;
        }
        assert(self@ =~= forget_spec(old(self)@, path@));
    }
}

// ---------------------------------------------------------------------- laws ----

proof fn lemma_first_index_same_pred<T>(s1: Seq<T>, s2: Seq<T>, p1: spec_fn(T) -> bool, p2: spec_fn(T) -> bool)
    requires
        s1.len() == s2.len(),
        forall|j: int| 0 <= j < s1.len() ==> p1(#[trigger] s1[j]) == p2(s2[j]),
    ensures
        first_index(s1, p1) == first_index(s2, p2),
    decreases s1.len(),
{
    if s1.len() > 0 {
        assert forall|j: int| 0 <= j < s1.len() - 1 implies p1(#[trigger] s1.drop_last()[j]) == p2(
            s2.drop_last()[j],
        ) by {
            assert(s1.drop_last()[j] == s1[j]);
            assert(s2.drop_last()[j] == s2[j]);
        }
        lemma_first_index_same_pred(s1.drop_last(), s2.drop_last(), p1, p2);
        assert(p1(s1[s1.len() - 1]) == p2(s2[s2.len() - 1]));
    }
}

proof fn lemma_push_keeps_match(paths: Seq<Seq<u8>>, x: Seq<u8>, q: Seq<u8>)
    requires
        first_index(paths, at_path(q)) is Some,
    ensures
        first_index(paths.push(x), at_path(q)) == first_index(paths, at_path(q)),
{
    assert(paths.push(x).drop_last() =~= paths);
}

proof fn lemma_toggle_true_keeps_match(paths: Seq<Seq<u8>>, p: Seq<u8>, q: Seq<u8>)
    requires
        first_index(paths, at_path(q)) is Some,
    ensures
        first_index(toggle(paths, p, true), at_path(q)) is Some,
{
    if first_index(paths, at_path(p)) is None {
        lemma_push_keeps_match(paths, p, q);
    }
}

proof fn lemma_toggle_true_adds(paths: Seq<Seq<u8>>, p: Seq<u8>)
    ensures
        first_index(toggle(paths, p, true), at_path(p)) is Some,
{
    if first_index(paths, at_path(p)) is None {
        let r = paths.push(p);
        assert(r.drop_last() =~= paths);
        assert(same_path(p, p));
    }
}

proof fn lemma_toggle_all_true_covers(paths: Seq<Seq<u8>>, ps: Seq<Seq<u8>>)
    ensures
        forall|j: int|
            0 <= j < ps.len() ==> first_index(toggle_all(paths, ps, true), at_path(#[trigger] ps[j]))
                is Some,
        forall|q: Seq<u8>|
            first_index(paths, at_path(q)) is Some ==> #[trigger] first_index(
                toggle_all(paths, ps, true),
                at_path(q),
            ) is Some,
    decreases ps.len(),
{
    if ps.len() > 0 {
        let front = ps.drop_last();
        lemma_toggle_all_true_covers(paths, front);
        let mid = toggle_all(paths, front, true);
        lemma_toggle_true_adds(mid, ps.last());
        assert forall|j: int| 0 <= j < ps.len() implies first_index(
            toggle_all(paths, ps, true),
            at_path(#[trigger] ps[j]),
        ) is Some by {
            if j < ps.len() - 1 {
                assert(ps[j] == front[j]);
                lemma_toggle_true_keeps_match(mid, ps.last(), ps[j]);
            }
        }
        assert forall|q: Seq<u8>| first_index(paths, at_path(q)) is Some implies #[trigger] first_index(
            toggle_all(paths, ps, true),
            at_path(q),
        ) is Some by {
            lemma_toggle_true_keeps_match(mid, ps.last(), q);
        }
    }
}

proof fn lemma_toggle_all_true_stable(paths: Seq<Seq<u8>>, ps: Seq<Seq<u8>>)
    requires
        forall|j: int| 0 <= j < ps.len() ==> first_index(paths, at_path(#[trigger] ps[j])) is Some,
    ensures
        toggle_all(paths, ps, true) == paths,
    decreases ps.len(),
{
    if ps.len() > 0 {
        let front = ps.drop_last();
        assert forall|j: int| 0 <= j < front.len() implies first_index(
            paths,
            at_path(#[trigger] front[j]),
        ) is Some by {
            assert(front[j] == ps[j]);
        }
        lemma_toggle_all_true_stable(paths, front);
        assert(first_index(paths, at_path(ps[ps.len() - 1])) is Some);
    }
}

/// Tagging is idempotent: tagging the same files with the same tag a second time
/// changes nothing.
pub proof fn lemma_tagging_is_idempotent(tags: Seq<TagView>, name: Seq<char>, ps: Seq<Seq<u8>>)
    ensures
        set_tagged_spec(set_tagged_spec(tags, name, ps, true), name, ps, true) == set_tagged_spec(
            tags,
            name,
            ps,
            true,
        ),
{
    let once = set_tagged_spec(tags, name, ps, true);
    match first_index(tags, named(name)) {
        None => {},
        Some(i) => {
            lemma_first_index_facts(tags, named(name));
            lemma_first_index_same_pred(once, tags, named(name), named(name));
            let q = toggle_all(tags[i].2, ps, true);
            lemma_toggle_all_true_covers(tags[i].2, ps);
            lemma_toggle_all_true_stable(q, ps);
            assert(once.update(i, (once[i].0, once[i].1, toggle_all(once[i].2, ps, true))) =~= once);
        },
    }
}

/// After tagging, every one of the files carries the tag (when the tag exists).
pub proof fn lemma_tagged_after_tagging(tags: Seq<TagView>, name: Seq<char>, ps: Seq<Seq<u8>>)
    requires
        first_index(tags, named(name)) is Some,
    ensures
        forall|j: int|
            0 <= j < ps.len() ==> tagged_spec(set_tagged_spec(tags, name, ps, true), name, #[trigger] ps[j]),
{
    let i = first_index(tags, named(name))->0;
    let once = set_tagged_spec(tags, name, ps, true);
    lemma_first_index_facts(tags, named(name));
    lemma_first_index_same_pred(once, tags, named(name), named(name));
    lemma_toggle_all_true_covers(tags[i].2, ps);
}

/// Tagging a file that did not carry a tag and then untagging it leaves the store as
/// it was.
pub proof fn lemma_untag_undoes_tag(tags: Seq<TagView>, name: Seq<char>, p: Seq<u8>)
    requires
        !tagged_spec(tags, name, p),
    ensures
        set_tagged_spec(set_tagged_spec(tags, name, seq![p], true), name, seq![p], false) == tags,
{
    let once = set_tagged_spec(tags, name, seq![p], true);
    assert(seq![p].drop_last() =~= Seq::<Seq<u8>>::empty());
    match first_index(tags, named(name)) {
        None => {},
        Some(i) => {
            lemma_first_index_facts(tags, named(name));
            lemma_first_index_same_pred(once, tags, named(name), named(name));
            let paths = tags[i].2;
            let grown = paths.push(p);
            assert(seq![p].last() == p);
            assert(toggle_all(paths, Seq::<Seq<u8>>::empty(), true) == paths);
            assert(first_index(paths, at_path(p)) is None);
            assert(toggle(paths, p, true) == grown);
            assert(toggle_all(paths, seq![p], true) == grown);
            assert(grown.drop_last() =~= paths);
            assert(same_path(p, p));
            assert(first_index(grown, at_path(p)) == Some(paths.len() as int));
            assert(grown.remove(paths.len() as int) =~= paths);
            assert(toggle_all(grown, Seq::<Seq<u8>>::empty(), false) == grown);
            assert(toggle(grown, p, false) == paths);
            assert(toggle_all(grown, seq![p], false) == paths);
            assert(once.update(i, (once[i].0, once[i].1, paths)) =~= tags);
        },
    }
}

/// Tag names are compared without case: any spelling that differs only in the case of
/// ASCII letters finds the same tag.
pub proof fn lemma_names_ignore_case(tags: Seq<TagView>, a: Seq<char>, b: Seq<char>)
    requires
        ascii_ci_eq(a, b),
    ensures
        first_index(tags, named(a)) == first_index(tags, named(b)),
{
    assert forall|j: int| 0 <= j < tags.len() implies named(a)(#[trigger] tags[j]) == named(b)(
        tags[j],
    ) by {
        let n = tags[j].0;
        if ascii_ci_eq(n, a) {
            assert forall|k: int| 0 <= k < n.len() implies ascii_lower(#[trigger] n[k]) == ascii_lower(
                b[k],
            ) by {
                assert(ascii_lower(n[k]) == ascii_lower(a[k]));
                assert(ascii_lower(a[k]) == ascii_lower(b[k]));
            }
        }
        if ascii_ci_eq(n, b) {
            assert forall|k: int| 0 <= k < n.len() implies ascii_lower(#[trigger] n[k]) == ascii_lower(
                a[k],
            ) by {
                assert(ascii_lower(n[k]) == ascii_lower(b[k]));
                assert(ascii_lower(a[k]) == ascii_lower(b[k]));
            }
        }
    }
    lemma_first_index_same_pred(tags, tags, named(a), named(b));
}

/// After forgetting a path, no tag carries it or anything inside it.
pub proof fn lemma_forget_removes_everything_inside(tags: Seq<TagView>, path: Seq<u8>)
    ensures
        forall|t: int, j: int|
            0 <= t < tags.len() && 0 <= j < forget_spec(tags, path)[t].2.len() ==> !path_starts_with(
                #[trigger] forget_spec(tags, path)[t].2[j],
                path,
            ),
{
    assert forall|t: int, j: int|
        0 <= t < tags.len() && 0 <= j < forget_spec(tags, path)[t].2.len() implies !path_starts_with(
        #[trigger] forget_spec(tags, path)[t].2[j],
        path,
    ) by {
        lemma_keep_facts(tags[t].2, survives(path));
        assert(survives(path)(keep(tags[t].2, survives(path))[j]));
    }
}

// ------------------------------------------------------------------ storage ----

/// `teral/tags.toml` as bytes.
pub open spec fn tags_file_name() -> Seq<u8> {
    seq![116u8, 101u8, 114u8, 97u8, 108u8, 47u8, 116u8, 97u8, 103u8, 115u8, 46u8, 116u8, 111u8, 109u8, 108u8]
}

/// Where the tag store lives, under the user's data directory.
pub fn tags_path(data_home: &[u8]) -> (r: Vec<u8>)
    ensures
        r@ == join(data_home@, tags_file_name()),
{
    let name = copy_bytes(&[116u8, 101u8, 114u8, 97u8, 108u8, 47u8, 116u8, 97u8, 103u8, 115u8, 46u8, 116u8, 111u8, 109u8, 108u8]);
    assert(name@ =~= tags_file_name());
    join_path(data_home, name.as_slice())
}

/// One stored path: its bytes as hexadecimal digits, quoted, on a line of its own.
/// Any path can be written this way, whatever bytes its name holds.
pub open spec fn path_line(p: Seq<u8>) -> Seq<char> {
    "  \""@ + hex_text(p) + "\",\n"@
}

/// The stored paths of one tag.
pub open spec fn paths_block(ps: Seq<Seq<u8>>) -> Seq<char>
    decreases ps.len(),
{
    if ps.len() == 0 {
        Seq::empty()
    } else {
        paths_block(ps.drop_last()) + path_line(ps.last())
    }
}

/// One `[[tag]]` table.
pub open spec fn tag_block(t: TagView) -> Seq<char> {
    "\n[[tag]]\nname = \""@ + escaped(t.0) + "\"\ncolor = \""@ + escaped(t.1) + "\"\npaths_hex = [\n"@
        + paths_block(t.2) + "]\n"@
}

/// Every `[[tag]]` table, in order.
pub open spec fn tags_block(ts: Seq<TagView>) -> Seq<char>
    decreases ts.len(),
{
    if ts.len() == 0 {
        Seq::empty()
    } else {
        tags_block(ts.drop_last()) + tag_block(ts.last())
    }
}

/// The whole tag file.
pub open spec fn tags_document_text(ts: Seq<TagView>) -> Seq<char> {
    "# Teral tags. Edit by hand if you like.\n\nversion = 2\n"@ + tags_block(ts)
}

fn push_tag_block(document: &mut String, tag: &Tag)
    ensures
        final(document)@ == old(document)@ + tag_block(tag@),
{
    push_str(document, "\n[[tag]]\nname = \"");
    let name = escape(tag.name.as_str());
    push_str(document, name.as_str());
    push_str(document, "\"\ncolor = \"");
    let color = escape(tag.color.as_str());
    push_str(document, color.as_str());
    push_str(document, "\"\npaths_hex = [\n");
    let ghost mid = document@;
    let ghost ps = paths_view(tag.paths@);
    let mut k: usize = 0;
    assert(ps.subrange(0, 0) =~= Seq::<Seq<u8>>::empty());
    while k < tag.paths.len()
        invariant
            k <= tag.paths.len(),
            ps == paths_view(tag.paths@),
            document@ == mid + paths_block(ps.subrange(0, k as int)),
        decreases tag.paths.len() - k,
    {
        let ghost sub = ps.subrange(0, k + 1);
        assert(sub.drop_last() =~= ps.subrange(0, k as int));
        push_str(document, "  \"");
        let encoded = encode_path(tag.paths[k].as_slice());
        push_str(document, encoded.as_str());
        push_str(document, "\",\n");
        k += 1;
    }
    assert(ps.subrange(0, tag.paths.len() as int) =~= ps);
    push_str(document, "]\n");
}

/// The text of the tag file: a version line, then one `[[tag]]` table per tag with its
/// name, its colour and each of its paths in hexadecimal.
pub fn tags_document(tags: &Tags) -> (r: String)
    ensures
        r@ == tags_document_text(tags@),
{
    let mut document = String::from_str("# Teral tags. Edit by hand if you like.\n\nversion = 2\n");
    let ghost head = document@;
    let mut i: usize = 0;
    assert(tags@.subrange(0, 0) =~= Seq::<TagView>::empty());
    while i < tags.tags.len()
        invariant
            i <= tags.tags.len(),
            head == "# Teral tags. Edit by hand if you like.\n\nversion = 2\n"@,
            document@ == head + tags_block(tags@.subrange(0, i as int)),
        decreases tags.tags.len() - i,
    {
        let ghost sub = tags@.subrange(0, i + 1);
        assert(sub.drop_last() =~= tags@.subrange(0, i as int));
        push_tag_block(&mut document, &tags.tags[i]);
        i += 1;
    }
    assert(tags@.subrange(0, tags.tags.len() as int) =~= tags@);
    document
}

/// A tag as read from the file, before it is checked: its name, its colour if it has
/// one, the paths an older file lists as plain text (`paths`), and the paths as the
/// hexadecimal texts a current file holds (`paths_hex`).
#[derive(Debug)]
pub struct RawTag {
    pub name: String,
    pub color: Option<String>,
    pub paths: Vec<String>,
    pub paths_hex: Vec<String>,
}

/// A raw tag as plain values: name, colour, plain-text paths, hexadecimal paths.
pub type RawTagView = (Seq<char>, Option<Seq<char>>, Seq<Seq<char>>, Seq<Seq<char>>);

impl View for RawTag {
    type V = RawTagView;

    open spec fn view(&self) -> RawTagView {
        (
            self.name@,
            match &self.color {
                Some(c) => Some(c@),
                None => None,
            },
            self.paths@.map_values(|p: String| p@),
            self.paths_hex@.map_values(|p: String| p@),
        )
    }
}

/// The colour a loaded tag gets: its own when it is a valid colour, otherwise the
/// default amber.
pub open spec fn loaded_color(c: Option<Seq<char>>) -> Seq<char> {
    match c {
        Some(c) => if is_color(c) {
            c
        } else {
            "#e0a63c"@
        },
        None => "#e0a63c"@,
    }
}

/// The hexadecimal paths that decode and still exist, as raw bytes. `exists[k]` says
/// whether the file that entry `k` names is still there; an entry that is not a
/// hexadecimal path names no file and is dropped.
pub open spec fn loaded_paths(ps: Seq<Seq<char>>, exists: Seq<bool>) -> Seq<Seq<u8>>
    decreases ps.len(),
{
    if ps.len() == 0 {
        Seq::empty()
    } else {
        let prev = loaded_paths(ps.drop_last(), exists);
        match decoded(ps.last()) {
            Ok(p) => if exists[ps.len() - 1] {
                prev.push(p)
            } else {
                prev
            },
            Err(_) => prev,
        }
    }
}

/// The plain-text paths of an older file that still exist, as their UTF-8 bytes.
pub open spec fn text_paths(ps: Seq<Seq<char>>, exists: Seq<bool>) -> Seq<Seq<u8>>
    decreases ps.len(),
{
    if ps.len() == 0 {
        Seq::empty()
    } else if exists[ps.len() - 1] {
        text_paths(ps.drop_last(), exists).push(encode_utf8(ps.last()))
    } else {
        text_paths(ps.drop_last(), exists)
    }
}

/// The paths a raw tag loads with: its plain-text paths, then its hexadecimal ones.
/// `exists` covers the plain-text entries first, then the hexadecimal ones.
pub open spec fn tag_paths(t: RawTagView, exists: Seq<bool>) -> Seq<Seq<u8>> {
    text_paths(t.2, exists) + loaded_paths(t.3, exists.skip(t.2.len() as int))
}

/// The loaded store: each tag with a non-blank name, in order.
pub open spec fn loaded_tags(raw: Seq<RawTagView>, exists: Seq<Seq<bool>>) -> Seq<TagView>
    decreases raw.len(),
{
    if raw.len() == 0 {
        Seq::empty()
    } else {
        let t = raw.last();
        let prev = loaded_tags(raw.drop_last(), exists);
        if is_blank(t.0) {
            prev
        } else {
            prev.push((t.0, loaded_color(t.1), tag_paths(t, exists[raw.len() - 1])))
        }
    }
}

fn load_paths(item: &RawTag, exists: &Vec<bool>) -> (r: Vec<Vec<u8>>)
    requires
        exists.len() == item.paths.len() + item.paths_hex.len(),
    ensures
        paths_view(r@) == tag_paths(item@, exists@),
{
    let ghost tv = item@.2;
    let ghost hv = item@.3;
    let n = item.paths.len();
    let mut r: Vec<Vec<u8>> = Vec::new();
    let mut k: usize = 0;
    while k < n
        invariant
            k <= n,
            n == item.paths.len(),
            exists.len() == item.paths.len() + item.paths_hex.len(),
            tv == item.paths@.map_values(|p: String| p@),
            paths_view(r@) == text_paths(tv.subrange(0, k as int), exists@),
        decreases n - k,
    {
        let ghost sub = tv.subrange(0, k + 1);
        assert(sub.drop_last() =~= tv.subrange(0, k as int));
        if exists[k] {
            let bytes = copy_bytes(item.paths[k].as_str().as_bytes());
            let ghost before = paths_view(r@);
            let ghost bv = bytes@;
            r.push(bytes);
            assert(paths_view(r@) =~= before.push(bv));
        }
        k += 1;
    }
    assert(tv.subrange(0, n as int) =~= tv);
    let ghost front = paths_view(r@);
    let ghost rest = exists@.skip(n as int);
    let mut j: usize = 0;
    assert(loaded_paths(hv.subrange(0, 0), rest) =~= Seq::<Seq<u8>>::empty());
    assert(front + Seq::<Seq<u8>>::empty() =~= front);
    while j < item.paths_hex.len()
        invariant
            j <= item.paths_hex.len(),
            n == item.paths.len(),
            exists.len() == item.paths.len() + item.paths_hex.len(),
            hv == item.paths_hex@.map_values(|p: String| p@),
            rest == exists@.skip(n as int),
            front == text_paths(tv, exists@),
            paths_view(r@) == front + loaded_paths(hv.subrange(0, j as int), rest),
        decreases item.paths_hex.len() - j,
    {
        let ghost sub = hv.subrange(0, j + 1);
        assert(sub.drop_last() =~= hv.subrange(0, j as int));
        assert(sub.last() == item.paths_hex@[j as int]@);
        assert(rest[j as int] == exists@[n + j]);
        match decode_path(item.paths_hex[j].as_str()) {
            Ok(bytes) => {
                if exists[n + j] {
                    let ghost before = paths_view(r@);
                    let ghost bv = bytes@;
                    r.push(bytes);
                    assert(paths_view(r@) =~= before.push(bv));
                    assert(front + loaded_paths(sub, rest) =~= before.push(bv));
                }
            },
            Err(_) => {},
        }
        j += 1;
    }
    assert(hv.subrange(0, item.paths_hex.len() as int) =~= hv);
    r
}

/// Build the store from the tags read from the file. `exists[t]` says, for raw tag
/// `t`, whether each of its plain-text paths and then each of its hexadecimal paths
/// still exists; files that have disappeared, and entries that are not hexadecimal
/// paths, are dropped quietly, an unreadable colour becomes the default, and a tag
/// with a blank name is dropped.
pub fn from_raw(raw: &Vec<RawTag>, exists: &Vec<Vec<bool>>) -> (r: Tags)
    requires
        exists.len() == raw.len(),
        forall|t: int| 0 <= t < raw.len() ==> #[trigger] exists@[t]@.len() == raw@[t].paths@.len() + raw@[t].paths_hex@.len(),
    ensures
        r@ == loaded_tags(
            raw@.map_values(|t: RawTag| t@),
            exists@.map_values(|e: Vec<bool>| e@),
        ),
{
    let ghost rv = raw@.map_values(|t: RawTag| t@);
    let ghost ev = exists@.map_values(|e: Vec<bool>| e@);
    let mut tags: Vec<Tag> = Vec::new();
    let mut t: usize = 0;
    while t < raw.len()
        invariant
            t <= raw.len(),
            exists.len() == raw.len(),
            forall|j: int| 0 <= j < raw.len() ==> #[trigger] exists@[j]@.len() == raw@[j].paths@.len() + raw@[j].paths_hex@.len(),
            rv == raw@.map_values(|t: RawTag| t@),
            ev == exists@.map_values(|e: Vec<bool>| e@),
            tags@.map_values(|x: Tag| x@) == loaded_tags(rv.subrange(0, t as int), ev),
        decreases raw.len() - t,
    {
        let ghost sub = rv.subrange(0, t + 1);
        assert(sub.drop_last() =~= rv.subrange(0, t as int));
        let item = &raw[t];
        if !is_blank_str(item.name.as_str()) {
            let color = match &item.color {
                Some(c) => if valid_color(c.as_str()) {
                    c.clone()
                } else {
                    String::from_str("#e0a63c")
                },
                None => String::from_str("#e0a63c"),
            };
            let paths = load_paths(item, &exists[t]);
            let tag = Tag { name: item.name.clone(), color, paths };
            let ghost before = tags@;
            let ghost tv = tag@;
            tags.push(tag);
            assert(tags@.map_values(|x: Tag| x@) =~= before.map_values(|x: Tag| x@).push(tv));
        }
        t += 1;
    }
    assert(rv.subrange(0, raw.len() as int) =~= rv);
    Tags { tags }
}

// ------------------------------------------------------------- round trip ----

/// The values saving the store writes: each tag's name, its colour, and each of its
/// paths in hexadecimal (which is what [`tags_document`] puts in the file).
pub open spec fn stored_tags(ts: Seq<TagView>) -> Seq<RawTagView> {
    ts.map_values(
        |t: TagView| (t.0, Some(t.1), Seq::<Seq<char>>::empty(), t.2.map_values(|p: Seq<u8>| hex_text(p))),
    )
}

/// An existence table, shaped like the stored tags, in which every stored path still
/// exists.
pub open spec fn all_exist(raw: Seq<RawTagView>, exists: Seq<Seq<bool>>) -> bool {
    &&& exists.len() >= raw.len()
    &&& forall|t: int| 0 <= t < raw.len() ==> (#[trigger] exists[t]).len() == raw[t].2.len() + raw[t].3.len()
    &&& forall|t: int, k: int|
        0 <= t < raw.len() && 0 <= k < raw[t].2.len() + raw[t].3.len() ==> #[trigger] exists[t][k]
}

proof fn lemma_paths_round_trip(ps: Seq<Seq<u8>>, exists: Seq<bool>)
    requires
        exists.len() >= ps.len(),
        forall|k: int| 0 <= k < ps.len() ==> #[trigger] exists[k],
    ensures
        loaded_paths(ps.map_values(|p: Seq<u8>| hex_text(p)), exists) == ps,
    decreases ps.len(),
{
    if ps.len() > 0 {
        let front = ps.drop_last();
        let stored = ps.map_values(|p: Seq<u8>| hex_text(p));
        assert(stored.drop_last() =~= front.map_values(|p: Seq<u8>| hex_text(p)));
        assert forall|k: int| 0 <= k < front.len() implies #[trigger] exists[k] by {
            assert(exists[k]);
        }
        lemma_paths_round_trip(front, exists);
        lemma_path_round_trip(ps.last());
        assert(stored.last() == hex_text(ps.last()));
        assert(decoded(stored.last()) == Ok::<Seq<u8>, Seq<char>>(ps.last()));
        assert(exists[ps.len() - 1]);
        assert(front.push(ps.last()) =~= ps);
    } else {
        assert(ps.map_values(|p: Seq<u8>| hex_text(p)) =~= Seq::<Seq<char>>::empty());
    }
}

/// Loading what saving the store wrote gives it back, as long as the tagged files
/// still exist: every tag with its name, its colour and all of its paths, byte for
/// byte, whatever bytes their names hold. Tags need a name that is not blank and a
/// valid colour, as every tag Teral keeps has.
pub proof fn lemma_tags_round_trip(ts: Seq<TagView>, exists: Seq<Seq<bool>>)
    requires
        forall|i: int| 0 <= i < ts.len() ==> !is_blank(#[trigger] ts[i].0) && is_color(ts[i].1),
        all_exist(stored_tags(ts), exists),
    ensures
        loaded_tags(stored_tags(ts), exists) == ts,
    decreases ts.len(),
{
    let raw = stored_tags(ts);
    if ts.len() == 0 {
        assert(raw =~= Seq::<RawTagView>::empty());
    } else {
        let front = ts.drop_last();
        let n = ts.len() - 1;
        assert(raw.drop_last() =~= stored_tags(front));
        assert forall|i: int| 0 <= i < front.len() implies !is_blank(#[trigger] front[i].0) && is_color(front[i].1) by {
            assert(front[i] == ts[i]);
        }
        assert forall|t: int, k: int| 0 <= t < stored_tags(front).len() && 0 <= k < stored_tags(front)[t].2.len() + stored_tags(front)[t].3.len() implies #[trigger] exists[t][k] by {
            assert(stored_tags(front)[t] == raw[t]);
        }
        assert forall|t: int| 0 <= t < stored_tags(front).len() implies (#[trigger] exists[t]).len() == stored_tags(front)[t].2.len() + stored_tags(front)[t].3.len() by {
            assert(stored_tags(front)[t] == raw[t]);
        }
        lemma_tags_round_trip(front, exists);
        let last = ts[n];
        let stored = last.2.map_values(|p: Seq<u8>| hex_text(p));
        assert(ts.last() == last);
        assert(!is_blank(last.0) && is_color(last.1));
        assert(raw.last() == (last.0, Some(last.1), Seq::<Seq<char>>::empty(), stored));
        assert(raw[n].2.len() == 0);
        assert(raw[n].3 == stored);
        assert(exists[n].len() == stored.len());
        assert forall|k: int| 0 <= k < last.2.len() implies #[trigger] exists[n][k] by {
            assert(raw[n].3 == stored);
            assert(k < stored.len());
        }
        lemma_paths_round_trip(last.2, exists[n]);
        assert(exists[n].skip(0) =~= exists[n]);
        assert(text_paths(Seq::<Seq<char>>::empty(), exists[n]) =~= Seq::<Seq<u8>>::empty());
        assert(tag_paths(raw.last(), exists[n]) =~= last.2);
        assert(front.push(last) =~= ts);
    }
}

/// Moving or renaming a file carries its tags along: in every tag, each stored path
/// that is `from` becomes `to` in the same place, every tag keeps its name, colour and
/// number of paths, and a tag that carried `from` carries `to` afterwards.
pub proof fn lemma_relocate_carries_tags(tags: Seq<TagView>, from: Seq<u8>, to: Seq<u8>, name: Seq<char>)
    ensures
        relocate_spec(tags, from, to).len() == tags.len(),
        forall|t: int|
            0 <= t < tags.len() ==> (#[trigger] relocate_spec(tags, from, to)[t]).0 == tags[t].0
                && relocate_spec(tags, from, to)[t].1 == tags[t].1 && relocate_spec(tags, from, to)[t].2.len()
                == tags[t].2.len(),
        forall|t: int, k: int|
            0 <= t < tags.len() && 0 <= k < tags[t].2.len() && same_path(#[trigger] tags[t].2[k], from)
                ==> relocate_spec(tags, from, to)[t].2[k] == to,
        tagged_spec(tags, name, from) ==> tagged_spec(relocate_spec(tags, from, to), name, to),
{
    let moved = relocate_spec(tags, from, to);
    if tagged_spec(tags, name, from) {
        let i = first_index(tags, named(name))->0;
        lemma_first_index_facts(tags, named(name));
        lemma_first_index_same_pred(moved, tags, named(name), named(name));
        let paths = tags[i].2;
        lemma_first_index_facts(paths, at_path(from));
        let k = first_index(paths, at_path(from))->0;
        assert(moved[i].2[k] == to);
        assert(at_path(to)(moved[i].2[k]));
        lemma_first_index_facts(moved[i].2, at_path(to));
    }
}

} // verus!
