//! Deliberate restoration of the last window's tabs.
//!
//! A session is written as TOML with every path hex-encoded, so names that are not
//! valid UTF-8 survive. Reading the file and parsing its TOML happen outside this
//! module; what arrives here is a [`RawSession`] of texts, which [`from_raw`] decodes.

use crate::paths::{copy_bytes, join, join_path, paths_view};
use crate::persistence::{decode_path, decoded, encode_path, hex_text, lemma_path_round_trip};
use crate::text::{decimal, decimal_string, escape, escaped, is_blank, is_blank_str, push_str};
use crate::theme::opt_text;
use vstd::prelude::*;

verus! {

/// Session format version written by this build.
pub const SESSION_VERSION: u32 = 1;

/// At most this many tabs are saved or restored.
pub const MAX_TABS: usize = 64;

/// At most this many history entries are saved in each direction.
pub const MAX_HISTORY: usize = 128;

/// A saved tab as plain values: its folder, its tag, and its back and forward history.
pub type TabView = (Seq<u8>, Option<Seq<char>>, Seq<Seq<u8>>, Seq<Seq<u8>>);

/// A session as plain values: the active tab and the tabs.
pub type SessionView = (nat, Seq<TabView>);

/// A tab as read from the file: hex texts and an optional tag.
pub type RawTabView = (Seq<char>, Option<Seq<char>>, Seq<Seq<char>>, Seq<Seq<char>>);

/// A session as read from the file.
pub type RawSessionView = (Option<nat>, Seq<RawTabView>);

/// One tab of a saved window.
#[derive(Debug, Clone, PartialEq, Eq)]
pub struct SavedTab {
    pub path: Vec<u8>,
    pub tag: Option<String>,
    pub back: Vec<Vec<u8>>,
    pub forward: Vec<Vec<u8>>,
}

impl View for SavedTab {
    type V = TabView;

    open spec fn view(&self) -> TabView {
        (self.path@, opt_text(self.tag), paths_view(self.back@), paths_view(self.forward@))
    }
}

/// The tabs of a saved window and which of them was active.
#[derive(Debug, Clone, PartialEq, Eq)]
pub struct Session {
    pub active: usize,
    pub tabs: Vec<SavedTab>,
}

impl View for Session {
    type V = SessionView;

    open spec fn view(&self) -> SessionView {
        (self.active as nat, self.tabs@.map_values(|t: SavedTab| t@))
    }
}

/// The texts of a list of strings.
pub open spec fn texts_view(v: Seq<String>) -> Seq<Seq<char>> {
    v.map_values(|s: String| s@)
}

/// One `[[tab]]` table as read from the file.
#[derive(Debug)]
pub struct RawTab {
    pub path_hex: String,
    pub tag: Option<String>,
    pub back_hex: Vec<String>,
    pub forward_hex: Vec<String>,
}

impl View for RawTab {
    type V = RawTabView;

    open spec fn view(&self) -> RawTabView {
        (self.path_hex@, opt_text(self.tag), texts_view(self.back_hex@), texts_view(self.forward_hex@))
    }
}

/// The session file as read from disk.
#[derive(Debug)]
pub struct RawSession {
    pub active: Option<usize>,
    pub tabs: Vec<RawTab>,
}

impl View for RawSession {
    type V = RawSessionView;

    open spec fn view(&self) -> RawSessionView {
        (
            match self.active {
                Some(a) => Some(a as nat),
                None => None,
            },
            self.tabs@.map_values(|t: RawTab| t@),
        )
    }
}

// ------------------------------------------------------------------ reading ----

/// Every text decoded in order; the first refusal wins.
pub open spec fn decoded_all(ts: Seq<Seq<char>>) -> Result<Seq<Seq<u8>>, Seq<char>>
    decreases ts.len(),
{
    if ts.len() == 0 {
        Ok(Seq::empty())
    } else {
        match decoded_all(ts.drop_last()) {
            Err(e) => Err(e),
            Ok(prev) => match decoded(ts.last()) {
                Err(e) => Err(e),
                Ok(p) => Ok(prev.push(p)),
            },
        }
    }
}

/// A tag is kept only when it holds something other than white space.
pub open spec fn kept_tag(tag: Option<Seq<char>>) -> Option<Seq<char>> {
    match tag {
        Some(t) => if is_blank(t) {
            None
        } else {
            Some(t)
        },
        None => None,
    }
}

/// One tab decoded: its folder, then its back history, then its forward history.
pub open spec fn decoded_tab(t: RawTabView) -> Result<TabView, Seq<char>> {
    match decoded(t.0) {
        Err(e) => Err(e),
        Ok(path) => match decoded_all(t.2) {
            Err(e) => Err(e),
            Ok(back) => match decoded_all(t.3) {
                Err(e) => Err(e),
                Ok(forward) => Ok((path, kept_tag(t.1), back, forward)),
            },
        },
    }
}

/// Every tab decoded in order; the first refusal wins.
pub open spec fn decoded_tabs(ts: Seq<RawTabView>) -> Result<Seq<TabView>, Seq<char>>
    decreases ts.len(),
{
    if ts.len() == 0 {
        Ok(Seq::empty())
    } else {
        match decoded_tabs(ts.drop_last()) {
            Err(e) => Err(e),
            Ok(prev) => match decoded_tab(ts.last()) {
                Err(e) => Err(e),
                Ok(t) => Ok(prev.push(t)),
            },
        }
    }
}

/// The first `MAX_TABS` entries of a list.
pub open spec fn first_tabs<T>(ts: Seq<T>) -> Seq<T> {
    if ts.len() <= MAX_TABS {
        ts
    } else {
        ts.take(MAX_TABS as int)
    }
}

/// The smaller of two naturals.
pub open spec fn min_nat(a: nat, b: nat) -> nat {
    if a < b {
        a
    } else {
        b
    }
}

/// What loading a session file gives: nothing when it names no tab, the first
/// refusal when a stored path cannot be decoded, and otherwise its first
/// `MAX_TABS` tabs with the active index kept inside them.
pub open spec fn loaded_session(raw: RawSessionView) -> Result<Option<SessionView>, Seq<char>> {
    if raw.1.len() == 0 {
        Ok(None)
    } else {
        match decoded_tabs(first_tabs(raw.1)) {
            Err(e) => Err(e),
            Ok(tabs) => Ok(
                Some(
                    (
                        min_nat(
                            match raw.0 {
                                Some(a) => a,
                                None => 0,
                            },
                            (tabs.len() - 1) as nat,
                        ),
                        tabs,
                    ),
                ),
            ),
        }
    }
}

/// The plain values of what loading returned.
pub open spec fn load_view(r: Result<Option<Session>, String>) -> Result<Option<SessionView>, Seq<char>> {
    match r {
        Ok(Some(s)) => Ok(Some(s@)),
        Ok(None) => Ok(None),
        Err(m) => Err(m@),
    }
}

proof fn lemma_decoded_all_len(ts: Seq<Seq<char>>)
    ensures
        decoded_all(ts) matches Ok(ps) ==> ps.len() == ts.len(),
    decreases ts.len(),
{
    if ts.len() > 0 {
        lemma_decoded_all_len(ts.drop_last());
    }
}

proof fn lemma_decoded_all_prefix_err(ts: Seq<Seq<char>>, k: int)
    requires
        0 <= k <= ts.len(),
        decoded_all(ts.take(k)) is Err,
    ensures
        decoded_all(ts) == decoded_all(ts.take(k)),
    decreases ts.len(),
{
    if ts.len() == k {
        assert(ts.take(k) =~= ts);
    } else {
        assert(ts.drop_last().take(k) =~= ts.take(k));
        lemma_decoded_all_prefix_err(ts.drop_last(), k);
    }
}

proof fn lemma_decoded_tabs_len(ts: Seq<RawTabView>)
    ensures
        decoded_tabs(ts) matches Ok(out) ==> out.len() == ts.len(),
    decreases ts.len(),
{
    if ts.len() > 0 {
        lemma_decoded_tabs_len(ts.drop_last());
    }
}

proof fn lemma_decoded_tabs_prefix_err(ts: Seq<RawTabView>, k: int)
    requires
        0 <= k <= ts.len(),
        decoded_tabs(ts.take(k)) is Err,
    ensures
        decoded_tabs(ts) == decoded_tabs(ts.take(k)),
    decreases ts.len(),
{
    if ts.len() == k {
        assert(ts.take(k) =~= ts);
    } else {
        assert(ts.drop_last().take(k) =~= ts.take(k));
        lemma_decoded_tabs_prefix_err(ts.drop_last(), k);
    }
}

/// Decode every stored path in order, stopping at the first refusal.
fn decode_paths(values: &Vec<String>) -> (r: Result<Vec<Vec<u8>>, String>)
    ensures
        match r {
            Ok(ps) => decoded_all(texts_view(values@)) == Ok::<Seq<Seq<u8>>, Seq<char>>(paths_view(ps@)),
            Err(m) => decoded_all(texts_view(values@)) == Err::<Seq<Seq<u8>>, Seq<char>>(m@),
        },
{
    let ghost ts = texts_view(values@);
    let mut out: Vec<Vec<u8>> = Vec::new();
    let mut i: usize = 0;
    assert(ts.take(0) =~= Seq::<Seq<char>>::empty());
    assert(paths_view(out@) =~= Seq::<Seq<u8>>::empty());
    while i < values.len()
        invariant
            i <= values.len(),
            ts == texts_view(values@),
            decoded_all(ts.take(i as int)) == Ok::<Seq<Seq<u8>>, Seq<char>>(paths_view(out@)),
        decreases values.len() - i,
    {
        let ghost next = ts.take(i + 1);
        assert(next.drop_last() =~= ts.take(i as int));
        assert(next.last() == values@[i as int]@);
        match decode_path(values[i].as_str()) {
            Ok(p) => {
                let ghost before = out@;
                out.push(p);
                assert(paths_view(out@) =~= paths_view(before).push(p@));
            },
            Err(m) => {
                proof {
                    lemma_decoded_all_prefix_err(ts, i + 1);
                }
                return Err(m);
            },
        }
        i += 1;
    }
    assert(ts.take(values.len() as int) =~= ts);
    Ok(out)
}

/// Decode one stored tab.
fn decode_tab(tab: &RawTab) -> (r: Result<SavedTab, String>)
    ensures
        match r {
            Ok(t) => decoded_tab(tab@) == Ok::<TabView, Seq<char>>(t@),
            Err(m) => decoded_tab(tab@) == Err::<TabView, Seq<char>>(m@),
        },
{
    let path = match decode_path(tab.path_hex.as_str()) {
        Ok(p) => p,
        Err(m) => return Err(m),
    };
    let back = match decode_paths(&tab.back_hex) {
        Ok(ps) => ps,
        Err(m) => return Err(m),
    };
    let forward = match decode_paths(&tab.forward_hex) {
        Ok(ps) => ps,
        Err(m) => return Err(m),
    };
    let tag = match &tab.tag {
        Some(t) => if is_blank_str(t.as_str()) {
            None
        } else {
            Some(t.clone())
        },
        None => None,
    };
    Ok(SavedTab { path, tag, back, forward })
}

/// Turn a session file as read into the session it records: `Ok(None)` when it names
/// no tab, the first decoding refusal when a stored path is not valid hex, and
/// otherwise its first `MAX_TABS` tabs, blank tags dropped, with the active index
/// kept inside them.
pub fn from_raw(raw: &RawSession) -> (r: Result<Option<Session>, String>)
    ensures
        load_view(r) == loaded_session(raw@),
{
    let ghost all = raw@.1;
    if raw.tabs.len() == 0 {
        return Ok(None);
    }
    let n: usize = if raw.tabs.len() < MAX_TABS {
        raw.tabs.len()
    } else {
        MAX_TABS
    };
    let ghost kept = first_tabs(all);
    assert(kept =~= all.take(n as int));
    let mut tabs: Vec<SavedTab> = Vec::new();
    let mut i: usize = 0;
    assert(kept.take(0) =~= Seq::<RawTabView>::empty());
    assert(tabs@.map_values(|t: SavedTab| t@) =~= Seq::<TabView>::empty());
    while i < n
        invariant
            i <= n,
            n <= raw.tabs.len(),
            all == raw@.1,
            kept == all.take(n as int),
            first_tabs(all) == kept,
            all.len() > 0,
            decoded_tabs(kept.take(i as int)) == Ok::<Seq<TabView>, Seq<char>>(
                tabs@.map_values(|t: SavedTab| t@),
            ),
        decreases n - i,
    {
        let ghost next = kept.take(i + 1);
        assert(next.drop_last() =~= kept.take(i as int));
        assert(next.last() == raw.tabs@[i as int]@);
        match decode_tab(&raw.tabs[i]) {
            Ok(t) => {
                let ghost before = tabs@.map_values(|t: SavedTab| t@);
                tabs.push(t);
                assert(tabs@.map_values(|t: SavedTab| t@) =~= before.push(t@));
            },
            Err(m) => {
                proof {
                    lemma_decoded_tabs_prefix_err(kept, i + 1);
                }
                return Err(m);
            },
        }
        i += 1;
    }
    assert(kept.take(n as int) =~= kept);
    let last = tabs.len() - 1;
    let wanted: usize = match raw.active {
        Some(a) => a,
        None => 0,
    };
    let active = if wanted < last {
        wanted
    } else {
        last
    };
    Ok(Some(Session { active, tabs }))
}

// ------------------------------------------------------------------ writing ----

/// `teral/session.toml`, as bytes.
pub open spec fn session_file_name() -> Seq<u8> {
    seq![116u8, 101u8, 114u8, 97u8, 108u8, 47u8, 115u8, 101u8, 115u8, 115u8, 105u8, 111u8, 110u8, 46u8, 116u8, 111u8, 109u8, 108u8]
}

/// Where the session is kept, under the user's data directory.
pub fn path(data_home: &[u8]) -> (r: Vec<u8>)
    ensures
        r@ == join(data_home@, session_file_name()),
{
    let name = copy_bytes(&[116u8, 101u8, 114u8, 97u8, 108u8, 47u8, 115u8, 101u8, 115u8, 115u8, 105u8, 111u8, 110u8, 46u8, 116u8, 111u8, 109u8, 108u8]);
    assert(name@ =~= session_file_name());
    join_path(data_home, name.as_slice())
}

/// The most recent `MAX_HISTORY` entries of a history.
pub open spec fn recent<T>(ps: Seq<T>) -> Seq<T> {
    if ps.len() <= MAX_HISTORY {
        ps
    } else {
        ps.subrange(ps.len() - MAX_HISTORY, ps.len() as int)
    }
}

/// One quoted, hex-encoded path per line.
pub open spec fn path_lines(ps: Seq<Seq<u8>>) -> Seq<char>
    decreases ps.len(),
{
    if ps.len() == 0 {
        Seq::empty()
    } else {
        path_lines(ps.drop_last()) + "  \""@ + hex_text(ps.last()) + "\",\n"@
    }
}

/// A history written as a TOML array under `key`, most recent entries only.
pub open spec fn history_text(key: Seq<char>, ps: Seq<Seq<u8>>) -> Seq<char> {
    key + " = [\n"@ + path_lines(recent(ps)) + "]\n"@
}

/// The `tag = "..."` line of a tab that has a tag.
pub open spec fn tag_text(tag: Option<Seq<char>>) -> Seq<char> {
    match tag {
        Some(t) => "tag = \""@ + escaped(t) + "\"\n"@,
        None => Seq::empty(),
    }
}

/// One `[[tab]]` table.
pub open spec fn tab_text(t: TabView) -> Seq<char> {
    "\n[[tab]]\n"@ + ("path_hex = \""@ + hex_text(t.0) + "\"\n"@) + tag_text(t.1) + history_text(
        "back_hex"@,
        t.2,
    ) + history_text("forward_hex"@, t.3)
}

/// Every tab table, in order.
pub open spec fn tabs_text(ts: Seq<TabView>) -> Seq<char>
    decreases ts.len(),
{
    if ts.len() == 0 {
        Seq::empty()
    } else {
        tabs_text(ts.drop_last()) + tab_text(ts.last())
    }
}

/// The session file for a session with at least one tab: the version, the active
/// index kept inside the tabs, and the first `MAX_TABS` tabs.
pub open spec fn session_document(s: SessionView) -> Seq<char> {
    "version = "@ + decimal(SESSION_VERSION as nat) + "\nactive = "@ + decimal(
        min_nat(s.0, (s.1.len() - 1) as nat),
    ) + "\n"@ + tabs_text(first_tabs(s.1))
}

fn push_history(d: &mut String, key: &str, paths: &Vec<Vec<u8>>)
    ensures
        final(d)@ == old(d)@ + history_text(key@, paths_view(paths@)),
{
    let ghost before = d@;
    let ghost ps = paths_view(paths@);
    push_str(d, key);
    push_str(d, " = [\n");
    let ghost start = d@;
    let first: usize = if paths.len() > MAX_HISTORY {
        paths.len() - MAX_HISTORY
    } else {
        0
    };
    let mut i: usize = first;
    assert(ps.subrange(first as int, first as int) =~= Seq::<Seq<u8>>::empty());
    while i < paths.len()
        invariant
            first <= i <= paths.len(),
            ps == paths_view(paths@),
            d@ == start + path_lines(ps.subrange(first as int, i as int)),
        decreases paths.len() - i,
    {
        push_str(d, "  \"");
        let encoded = encode_path(paths[i].as_slice());
        push_str(d, encoded.as_str());
        push_str(d, "\",\n");
        let ghost next = ps.subrange(first as int, i + 1);
        assert(next.drop_last() =~= ps.subrange(first as int, i as int));
        assert(next.last() == paths@[i as int]@);
        i += 1;
    }
    assert(ps.subrange(first as int, paths.len() as int) =~= recent(ps));
    push_str(d, "]\n");
    assert(d@ =~= before + history_text(key@, ps));
}

fn push_tab(d: &mut String, tab: &SavedTab)
    ensures
        final(d)@ == old(d)@ + tab_text(tab@),
{
    let ghost before = d@;
    push_str(d, "\n[[tab]]\n");
    let ghost s1 = d@;
    push_str(d, "path_hex = \"");
    let encoded = encode_path(tab.path.as_slice());
    push_str(d, encoded.as_str());
    push_str(d, "\"\n");
    assert(d@ =~= s1 + ("path_hex = \""@ + hex_text(tab.path@) + "\"\n"@));
    let ghost s2 = d@;
    match &tab.tag {
        Some(tag) => {
            push_str(d, "tag = \"");
            let escaped_tag = escape(tag.as_str());
            push_str(d, escaped_tag.as_str());
            push_str(d, "\"\n");
            assert(d@ =~= s2 + tag_text(opt_text(tab.tag)));
        },
        None => {
            assert(d@ =~= s2 + tag_text(opt_text(tab.tag)));
        },
    }
    push_history(d, "back_hex", &tab.back);
    push_history(d, "forward_hex", &tab.forward);
    assert(d@ =~= before + tab_text(tab@));
}

/// The session file that saving `session` writes, or the refusal for a session
/// without a tab.
pub fn save(session: &Session) -> (r: Result<String, String>)
    ensures
        r is Err <==> session.tabs.len() == 0,
        r matches Err(m) ==> m@ == "a session must contain at least one tab"@,
        r matches Ok(d) ==> d@ == session_document(session@),
{
    if session.tabs.len() == 0 {
        return Err(String::from_str("a session must contain at least one tab"));
    }
    let ghost s = session@;
    let mut d = String::new();
    push_str(&mut d, "version = ");
    let version = decimal_string(SESSION_VERSION as u64);
    push_str(&mut d, version.as_str());
    push_str(&mut d, "\nactive = ");
    let last = session.tabs.len() - 1;
    let active = if session.active < last {
        session.active
    } else {
        last
    };
    let digits = decimal_string(active as u64);
    push_str(&mut d, digits.as_str());
    push_str(&mut d, "\n");
    let ghost start = d@;
    let n: usize = if session.tabs.len() < MAX_TABS {
        session.tabs.len()
    } else {
        MAX_TABS
    };
    assert(first_tabs(s.1) =~= s.1.take(n as int));
    let mut i: usize = 0;
    assert(s.1.take(0) =~= Seq::<TabView>::empty());
    while i < n
        invariant
            i <= n,
            n <= session.tabs.len(),
            s == session@,
            d@ == start + tabs_text(s.1.take(i as int)),
        decreases n - i,
    {
        push_tab(&mut d, &session.tabs[i]);
        let ghost next = s.1.take(i + 1);
        assert(next.drop_last() =~= s.1.take(i as int));
        assert(next.last() == session.tabs@[i as int]@);
        i += 1;
    }
    assert(d@ =~= session_document(s));
    Ok(d)
}

// ---------------------------------------------------------------------- laws ----

/// The file a parser reads back from `session_document(s)`: every path hex-encoded,
/// each tag as written before escaping, the active index as written.
pub open spec fn stored_image(s: SessionView) -> RawSessionView {
    (
        Some(min_nat(s.0, (s.1.len() - 1) as nat)),
        first_tabs(s.1).map_values(
            |t: TabView|
                (
                    hex_text(t.0),
                    t.1,
                    recent(t.2).map_values(|p: Seq<u8>| hex_text(p)),
                    recent(t.3).map_values(|p: Seq<u8>| hex_text(p)),
                ),
        ),
    )
}

/// What a saved tab comes back as: its tag only if it is not blank, and only the
/// most recent history.
pub open spec fn restored_tab(t: TabView) -> TabView {
    (t.0, kept_tag(t.1), recent(t.2), recent(t.3))
}

proof fn lemma_decoded_all_hex(ps: Seq<Seq<u8>>)
    ensures
        decoded_all(ps.map_values(|p: Seq<u8>| hex_text(p))) == Ok::<Seq<Seq<u8>>, Seq<char>>(ps),
    decreases ps.len(),
{
    let ts = ps.map_values(|p: Seq<u8>| hex_text(p));
    if ps.len() > 0 {
        assert(ts.drop_last() =~= ps.drop_last().map_values(|p: Seq<u8>| hex_text(p)));
        lemma_decoded_all_hex(ps.drop_last());
        lemma_path_round_trip(ps.last());
        assert(ts.last() == hex_text(ps.last()));
        assert(decoded(ts.last()) == Ok::<Seq<u8>, Seq<char>>(ps.last()));
        assert(ps.drop_last().push(ps.last()) =~= ps);
    } else {
        assert(ts =~= Seq::<Seq<char>>::empty());
        assert(ps =~= Seq::<Seq<u8>>::empty());
    }
}

proof fn lemma_decoded_tabs_image(ts: Seq<TabView>)
    ensures
        decoded_tabs(
            ts.map_values(
                |t: TabView|
                    (
                        hex_text(t.0),
                        t.1,
                        recent(t.2).map_values(|p: Seq<u8>| hex_text(p)),
                        recent(t.3).map_values(|p: Seq<u8>| hex_text(p)),
                    ),
            ),
        ) == Ok::<Seq<TabView>, Seq<char>>(ts.map_values(|t: TabView| restored_tab(t))),
    decreases ts.len(),
{
    let image = ts.map_values(
        |t: TabView|
            (
                hex_text(t.0),
                t.1,
                recent(t.2).map_values(|p: Seq<u8>| hex_text(p)),
                recent(t.3).map_values(|p: Seq<u8>| hex_text(p)),
            ),
    );
    if ts.len() > 0 {
        let t = ts.last();
        assert(image.drop_last() =~= ts.drop_last().map_values(
            |t: TabView|
                (
                    hex_text(t.0),
                    t.1,
                    recent(t.2).map_values(|p: Seq<u8>| hex_text(p)),
                    recent(t.3).map_values(|p: Seq<u8>| hex_text(p)),
                ),
        ));
        lemma_decoded_tabs_image(ts.drop_last());
        lemma_path_round_trip(t.0);
        lemma_decoded_all_hex(recent(t.2));
        lemma_decoded_all_hex(recent(t.3));
        assert(ts.drop_last().map_values(|t: TabView| restored_tab(t)).push(restored_tab(t))
            =~= ts.map_values(|t: TabView| restored_tab(t)));
    } else {
        assert(image =~= Seq::<RawTabView>::empty());
        assert(ts.map_values(|t: TabView| restored_tab(t)) =~= Seq::<TabView>::empty());
    }
}

/// Loading what saving a session wrote gives the session back: its first `MAX_TABS`
/// tabs with their folders byte for byte, their tags unless blank, their most
/// recent `MAX_HISTORY` history entries each way, and the active tab kept inside.
pub proof fn lemma_session_round_trip(s: SessionView)
    requires
        s.1.len() > 0,
    ensures
        loaded_session(stored_image(s)) == Ok::<Option<SessionView>, Seq<char>>(
            Some(
                (
                    min_nat(s.0, (first_tabs(s.1).len() - 1) as nat),
                    first_tabs(s.1).map_values(|t: TabView| restored_tab(t)),
                ),
            ),
        ),
{
    let kept = first_tabs(s.1);
    lemma_decoded_tabs_image(kept);
    let image = stored_image(s);
    assert(first_tabs(image.1) =~= image.1);
}

} // verus!
