//! Which desktop entries describe a set of application ids, and in what
//! order they are returned.
//!
//! Each id is claimed by the first desktop entry whose application id or
//! startup window class names it; ids that no entry claims get an
//! information record of their own. The records come out in the order of
//! the ids that name them.

use crate::app::{first_match, is_first_match, lemma_first_match};
use vstd::prelude::*;

verus! {

/// A desktop entry, as far as it is read: where it lies, the application id
/// and startup window class it declares, the icon it names, and its command
/// and name.
#[derive(Debug)]
pub struct DesktopEntry {
    pub path: String,
    pub appid: String,
    pub wm_class: Option<String>,
    pub icon: Option<String>,
    pub command: String,
    pub name: String,
}

/// What is known of an application: the icon to look up (none for the
/// default application icon), and the rest of its desktop entry, which is
/// empty for an id that no entry claimed.
#[derive(Debug)]
pub struct DesktopInfo {
    pub id: String,
    pub wm_class: Option<String>,
    pub icon: Option<String>,
    pub command: String,
    pub name: String,
    pub path: String,
}

/// The text of a desktop entry.
#[verifier::ext_equal]
pub struct EntryView {
    pub path: Seq<char>,
    pub appid: Seq<char>,
    pub wm_class: Option<Seq<char>>,
    pub icon: Option<Seq<char>>,
    pub command: Seq<char>,
    pub name: Seq<char>,
}

/// The text of an application's information.
#[verifier::ext_equal]
pub struct InfoView {
    pub id: Seq<char>,
    pub wm_class: Option<Seq<char>>,
    pub icon: Option<Seq<char>>,
    pub command: Seq<char>,
    pub name: Seq<char>,
    pub path: Seq<char>,
}

pub open spec fn opt_text(s: Option<String>) -> Option<Seq<char>> {
    match s {
        Some(t) => Some(t@),
        None => None,
    }
}

impl View for DesktopEntry {
    type V = EntryView;

    open spec fn view(&self) -> EntryView {
        EntryView {
            path: self.path@,
            appid: self.appid@,
            wm_class: opt_text(self.wm_class),
            icon: opt_text(self.icon),
            command: self.command@,
            name: self.name@,
        }
    }
}

impl View for DesktopInfo {
    type V = InfoView;

    open spec fn view(&self) -> InfoView {
        InfoView {
            id: self.id@,
            wm_class: opt_text(self.wm_class),
            icon: opt_text(self.icon),
            command: self.command@,
            name: self.name@,
            path: self.path@,
        }
    }
}

/// The texts of strings.
pub open spec fn texts(v: Seq<String>) -> Seq<Seq<char>> {
    v.map_values(|s: String| s@)
}

/// The views of desktop entries.
pub open spec fn entry_views(v: Seq<DesktopEntry>) -> Seq<EntryView> {
    v.map_values(|e: DesktopEntry| e@)
}

/// The views of application information.
pub open spec fn info_views(v: Seq<DesktopInfo>) -> Seq<InfoView> {
    v.map_values(|d: DesktopInfo| d@)
}

/// The entry names `id`: as its application id, or as its startup window
/// class, which is empty when the entry declares none.
pub open spec fn entry_names(e: EntryView) -> spec_fn(Seq<char>) -> bool {
    |id: Seq<char>|
        id == e.appid || id == (match e.wm_class {
            Some(w) => w,
            None => Seq::empty(),
        })
}

/// The information taken from an entry; its icon is the one the entry
/// names, else its application id.
pub open spec fn info_from_entry(e: EntryView) -> InfoView {
    InfoView {
        id: e.appid,
        wm_class: e.wm_class,
        icon: Some(
            match e.icon {
                Some(i) => i,
                None => e.appid,
            },
        ),
        command: e.command,
        name: e.name,
        path: e.path,
    }
}

/// The information for an id that no entry claimed.
pub open spec fn info_from_id(id: Seq<char>) -> InfoView {
    InfoView {
        id,
        wm_class: None,
        icon: None,
        command: Seq::empty(),
        name: Seq::empty(),
        path: Seq::empty(),
    }
}

/// Going through the entries in order, each entry claims the first
/// unclaimed id that it names, if any: the information of the claiming
/// entries, and the ids left unclaimed.
pub open spec fn claimed(ids: Seq<Seq<char>>, entries: Seq<EntryView>) -> (
    Seq<InfoView>,
    Seq<Seq<char>>,
)
    decreases entries.len(),
{
    if entries.len() == 0 {
        (Seq::empty(), ids)
    } else {
        match first_match(ids, entry_names(entries[0])) {
            Some(i) => {
                let rest = claimed(ids.remove(i), entries.drop_first());
                (seq![info_from_entry(entries[0])] + rest.0, rest.1)
            },
            None => claimed(ids, entries.drop_first()),
        }
    }
}

/// The records before ordering: those of the claiming entries, then one for
/// each unclaimed id.
pub open spec fn unordered_infos(ids: Seq<Seq<char>>, entries: Seq<EntryView>) -> Seq<InfoView> {
    let c = claimed(ids, entries);
    c.0 + c.1.map_values(|id: Seq<char>| info_from_id(id))
}

/// The id names the record: as its id or as its window class.
pub open spec fn names_info(x: InfoView) -> spec_fn(Seq<char>) -> bool {
    |id: Seq<char>| id == x.id || x.wm_class == Some(id)
}

/// The position of the first id that names the record.
pub open spec fn position(ids: Seq<Seq<char>>, x: InfoView) -> Option<int> {
    first_match(ids, names_info(x))
}

pub open spec fn at_position(ids: Seq<Seq<char>>, p: Option<int>) -> spec_fn(InfoView) -> bool {
    |x: InfoView| position(ids, x) == p
}

/// The records whose position is `p` or later, by position, each group in
/// the order of `s`.
pub open spec fn from_position(ids: Seq<Seq<char>>, s: Seq<InfoView>, p: int) -> Seq<InfoView>
    decreases ids.len() - p,
{
    if p >= ids.len() || p < 0 {
        Seq::empty()
    } else {
        s.filter(at_position(ids, Some(p))) + from_position(ids, s, p + 1)
    }
}

/// The records ordered by position, those named by no id first, and
/// records of equal position in the order of `s`: what a stable sort by
/// position gives.
pub open spec fn by_position(ids: Seq<Seq<char>>, s: Seq<InfoView>) -> Seq<InfoView> {
    s.filter(at_position(ids, None)) + from_position(ids, s, 0)
}

/// The information for the ids `ids` from the entries `entries`.
pub open spec fn desktop_infos(ids: Seq<Seq<char>>, entries: Seq<EntryView>) -> Seq<InfoView> {
    by_position(ids, unordered_infos(ids, entries))
}

fn clone_text(s: &String) -> (r: String)
    ensures
        r@ == s@,
{
    s.clone()
}

fn clone_opt_text(s: &Option<String>) -> (r: Option<String>)
    ensures
        opt_text(r) == opt_text(*s),
{
    match s {
        Some(t) => Some(t.clone()),
        None => None,
    }
}

impl DesktopInfo {
    /// A copy of the record.
    pub fn duplicate(&self) -> (r: DesktopInfo)
        ensures
            r@ == self@,
    {
        DesktopInfo {
            id: clone_text(&self.id),
            wm_class: clone_opt_text(&self.wm_class),
            icon: clone_opt_text(&self.icon),
            command: clone_text(&self.command),
            name: clone_text(&self.name),
            path: clone_text(&self.path),
        }
    }
}

/// The record taken from an entry.
fn info_from(e: &DesktopEntry) -> (r: DesktopInfo)
    ensures
        r@ == info_from_entry(e@),
{
    let icon = match &e.icon {
        Some(i) => clone_text(i),
        None => clone_text(&e.appid),
    };
    DesktopInfo {
        id: clone_text(&e.appid),
        wm_class: clone_opt_text(&e.wm_class),
        icon: Some(icon),
        command: clone_text(&e.command),
        name: clone_text(&e.name),
        path: clone_text(&e.path),
    }
}

/// Whether the entry names `id`.
fn entry_names_id(e: &DesktopEntry, id: &String) -> (r: bool)
    ensures
        r == entry_names(e@)(id@),
{
    if *id == e.appid {
        return true;
    }
    match &e.wm_class {
        Some(w) => *id == *w,
        None => {
            let empty = id.as_str().is_empty();
            proof {
                if empty {
                    assert(id@ =~= Seq::<char>::empty());
                }
            }
            empty
        },
    }
}

/// The first of `ids` that the entry names.
fn first_named(ids: &Vec<String>, e: &DesktopEntry) -> (r: Option<usize>)
    ensures
        match r {
            Some(i) => first_match(texts(ids@), entry_names(e@)) == Some(i as int) && i < ids@.len(),
            None => first_match(texts(ids@), entry_names(e@)) is None,
        },
{
    let ghost t = texts(ids@);
    let ghost p = entry_names(e@);
    proof {
        lemma_first_match(t, p);
    }
    let mut i: usize = 0;
    while i < ids.len()
        invariant
            i <= ids@.len(),
            t == texts(ids@),
            p == entry_names(e@),
            forall|j: int| 0 <= j < i ==> !p(#[trigger] t[j]),
            forall|k: int| is_first_match(t, p, k) ==> first_match(t, p) == Some(k),
            first_match(t, p) is None <==> forall|j: int| 0 <= j < t.len() ==> !p(#[trigger] t[j]),
        decreases ids@.len() - i,
    {
        if entry_names_id(e, &ids[i]) {
            proof {
                assert(is_first_match(t, p, i as int));
            }
            return Some(i);
        }
        i = i + 1;
    }
    None
}

/// Whether the id names the record.
fn names_record(x: &DesktopInfo, id: &String) -> (r: bool)
    ensures
        r == names_info(x@)(id@),
{
    if *id == x.id {
        return true;
    }
    match &x.wm_class {
        Some(w) => *id == *w,
        None => false,
    }
}

/// The position of the first id that names the record.
fn position_of(ids: &Vec<String>, x: &DesktopInfo) -> (r: Option<usize>)
    ensures
        match r {
            Some(i) => position(texts(ids@), x@) == Some(i as int),
            None => position(texts(ids@), x@) is None,
        },
{
    let ghost t = texts(ids@);
    let ghost p = names_info(x@);
    proof {
        lemma_first_match(t, p);
    }
    let mut i: usize = 0;
    while i < ids.len()
        invariant
            i <= ids@.len(),
            t == texts(ids@),
            p == names_info(x@),
            forall|j: int| 0 <= j < i ==> !p(#[trigger] t[j]),
            forall|k: int| is_first_match(t, p, k) ==> first_match(t, p) == Some(k),
            first_match(t, p) is None <==> forall|j: int| 0 <= j < t.len() ==> !p(#[trigger] t[j]),
        decreases ids@.len() - i,
    {
        if names_record(x, &ids[i]) {
            proof {
                assert(is_first_match(t, p, i as int));
            }
            return Some(i);
        }
        i = i + 1;
    }
    None
}

/// The records of `s` whose key in `keys` is `key`, in order.
fn select_by_key(s: &Vec<DesktopInfo>, keys: &Vec<Option<usize>>, key: Option<usize>, ghost_ids: Ghost<Seq<Seq<char>>>) -> (r: Vec<DesktopInfo>)
    requires
        keys@.len() == s@.len(),
        forall|j: int| 0 <= j < s@.len() ==> position(ghost_ids@, #[trigger] s@[j]@) == match keys@[j] {
            Some(k) => Some(k as int),
            None => None::<int>,
        },
    ensures
        info_views(r@) == info_views(s@).filter(at_position(ghost_ids@, match key {
            Some(k) => Some(k as int),
            None => None::<int>,
        })),
{
    let ghost ids = ghost_ids@;
    let ghost want: Option<int> = match key {
        Some(k) => Some(k as int),
        None => None::<int>,
    };
    let ghost pred = at_position(ids, want);
    let ghost v = info_views(s@);
    let mut r: Vec<DesktopInfo> = Vec::new();
    let mut i: usize = 0;
    proof {
        assert(v.take(0) =~= Seq::<InfoView>::empty());
    }
    while i < s.len()
        invariant
            i <= s@.len(),
            keys@.len() == s@.len(),
            v == info_views(s@),
            pred == at_position(ids, want),
            want == (match key {
                Some(k) => Some(k as int),
                None => None::<int>,
            }),
            forall|j: int| 0 <= j < s@.len() ==> position(ids, #[trigger] s@[j]@) == match keys@[j] {
                Some(k) => Some(k as int),
                None => None::<int>,
            },
            info_views(r@) == v.take(i as int).filter(pred),
        decreases s@.len() - i,
    {
        proof {
            reveal(Seq::filter);
            assert(v.take(i + 1).drop_last() =~= v.take(i as int));
            assert(v.take(i + 1).last() == s@[i as int]@);
            assert(v.take(i + 1).filter(pred) == if pred(v.take(i + 1).last()) {
                v.take(i as int).filter(pred).push(v.take(i + 1).last())
            } else {
                v.take(i as int).filter(pred)
            });
        }
        if keys[i] == key {
            let d = s[i].duplicate();
            r.push(d);
            proof {
                assert(pred(v.take(i + 1).last()));
                assert(info_views(r@) =~= v.take(i as int).filter(pred).push(d@));
            }
        } else {
            proof {
                assert(!pred(v.take(i + 1).last()));
            }
        }
        i = i + 1;
    }
    proof {
        assert(v.take(s@.len() as int) =~= v);
    }
    r
}

/// The information for the application ids `app_ids` from the desktop
/// entries `entries`: each entry, in order, claims the first still
/// unclaimed id that it names as its application id or as its startup
/// window class (empty when it declares none), and gives a record with the
/// icon it names (else its application id); each id left unclaimed gives a
/// record of its own, with the default icon and nothing else. The records
/// are then stably ordered by the position of the first id that names them
/// as their id or window class, records that no id names first.
pub fn desktop_info_for_app_ids(app_ids: Vec<String>, entries: Vec<DesktopEntry>) -> (r: Vec<
    DesktopInfo,
>)
    ensures
        info_views(r@) == desktop_infos(texts(app_ids@), entry_views(entries@)),
{
    let ghost ids = texts(app_ids@);
    let ghost ev = entry_views(entries@);
    // Claim ids entry by entry.
    let mut remaining: Vec<String> = Vec::new();
    let mut k: usize = 0;
    while k < app_ids.len()
        invariant
            k <= app_ids@.len(),
            texts(remaining@) == texts(app_ids@).take(k as int),
        decreases app_ids@.len() - k,
    {
        let ghost before = remaining@;
        let c = clone_text(&app_ids[k]);
        remaining.push(c);
        proof {
            assert(remaining@ == before.push(c));
            assert(texts(remaining@) =~= texts(before).push(c@));
            assert(texts(app_ids@).take(k + 1) =~= texts(app_ids@).take(k as int).push(
                app_ids@[k as int]@,
            ));
        }
        k = k + 1;
    }
    proof {
        assert(texts(remaining@) =~= ids);
        assert(ev.skip(0) =~= ev);
    }
    let mut out: Vec<DesktopInfo> = Vec::new();
    let mut e: usize = 0;
    while e < entries.len()
        invariant
            e <= entries@.len(),
            ids == texts(app_ids@),
            ev == entry_views(entries@),
            claimed(ids, ev) == (
                info_views(out@) + claimed(texts(remaining@), ev.skip(e as int)).0,
                claimed(texts(remaining@), ev.skip(e as int)).1,
            ),
        decreases entries@.len() - e,
    {
        let entry = &entries[e];
        let ghost rest = ev.skip(e as int);
        let ghost rem = texts(remaining@);
        proof {
            assert(rest[0] == entry@);
            assert(rest.drop_first() =~= ev.skip(e + 1));
        }
        match first_named(&remaining, entry) {
            Some(i) => {
                remaining.remove(i);
                let info = info_from(entry);
                let ghost before = info_views(out@);
                out.push(info);
                proof {
                    assert(texts(remaining@) =~= rem.remove(i as int));
                    assert(info_views(out@) =~= before.push(info_from_entry(rest[0])));
                    let tail = claimed(rem.remove(i as int), ev.skip(e + 1));
                    assert(claimed(rem, rest) == (
                        seq![info_from_entry(rest[0])] + tail.0,
                        tail.1,
                    ));
                    assert(before + (seq![info_from_entry(rest[0])] + tail.0) =~= info_views(out@)
                        + tail.0);
                }
            },
            None => {
                proof {
                    assert(claimed(rem, rest) == claimed(rem, ev.skip(e + 1)));
                }
            },
        }
        e = e + 1;
    }
    let ghost claimed_all = claimed(ids, ev);
    proof {
        let rest = ev.skip(e as int);
        assert(rest.len() == 0);
        assert(claimed(texts(remaining@), rest) == (Seq::<InfoView>::empty(), texts(remaining@)));
        assert(info_views(out@) + Seq::<InfoView>::empty() =~= info_views(out@));
    }
    // Give each unclaimed id a record of its own.
    let ghost claimed_out = info_views(out@);
    let ghost left = texts(remaining@);
    let mut j: usize = 0;
    while j < remaining.len()
        invariant
            j <= remaining@.len(),
            left == texts(remaining@),
            info_views(out@) == claimed_out + left.take(j as int).map_values(
                |id: Seq<char>| info_from_id(id),
            ),
        decreases remaining@.len() - j,
    {
        let ghost before = info_views(out@);
        let info = DesktopInfo {
            id: clone_text(&remaining[j]),
            wm_class: None,
            icon: None,
            command: String::new(),
            name: String::new(),
            path: String::new(),
        };
        out.push(info);
        proof {
            assert(info@ =~= info_from_id(left[j as int]));
            assert(left.take(j + 1).map_values(|id: Seq<char>| info_from_id(id)) =~= left.take(
                j as int,
            ).map_values(|id: Seq<char>| info_from_id(id)).push(info_from_id(left[j as int])));
            assert(info_views(out@) =~= before.push(info@));
        }
        j = j + 1;
    }
    let ghost u = unordered_infos(ids, ev);
    proof {
        assert(left.take(j as int) =~= left);
        assert(info_views(out@) =~= u);
    }
    // The key of each record: the position of the first id that names it.
    let mut keys: Vec<Option<usize>> = Vec::new();
    let mut q: usize = 0;
    while q < out.len()
        invariant
            q <= out@.len(),
            ids == texts(app_ids@),
            keys@.len() == q,
            forall|x: int| 0 <= x < q ==> position(ids, #[trigger] out@[x]@) == match keys@[x] {
                Some(k) => Some(k as int),
                None => None::<int>,
            },
        decreases out@.len() - q,
    {
        let key = position_of(&app_ids, &out[q]);
        keys.push(key);
        q = q + 1;
    }
    // Records named by no id first, then by position.
    let mut r = select_by_key(&out, &keys, None, Ghost(ids));
    let mut p: usize = 0;
    while p < app_ids.len()
        invariant
            p <= app_ids@.len(),
            ids == texts(app_ids@),
            keys@.len() == out@.len(),
            u == info_views(out@),
            forall|x: int| 0 <= x < out@.len() ==> position(ids, #[trigger] out@[x]@) == match keys@[x] {
                Some(k) => Some(k as int),
                None => None::<int>,
            },
            by_position(ids, u) == info_views(r@) + from_position(ids, u, p as int),
        decreases app_ids@.len() - p,
    {
        let ghost before = info_views(r@);
        let mut group = select_by_key(&out, &keys, Some(p), Ghost(ids));
        let ghost g = info_views(group@);
        r.append(&mut group);
        proof {
            assert(info_views(r@) =~= before + g);
            assert(from_position(ids, u, p as int) == u.filter(at_position(ids, Some(p as int)))
                + from_position(ids, u, p + 1));
            assert(before + (g + from_position(ids, u, p + 1)) =~= (before + g) + from_position(
                ids,
                u,
                p + 1,
            ));
        }
        p = p + 1;
    }
    proof {
        assert(info_views(r@) + Seq::<InfoView>::empty() =~= info_views(r@));
    }
    r
}

/// Claiming keeps every id: each id is either claimed by a record or left
/// unclaimed.
pub proof fn lemma_claimed_len(ids: Seq<Seq<char>>, entries: Seq<EntryView>)
    ensures
        claimed(ids, entries).0.len() + claimed(ids, entries).1.len() == ids.len(),
    decreases entries.len(),
{
    if entries.len() > 0 {
        let p = entry_names(entries[0]);
        match first_match(ids, p) {
            Some(i) => {
                lemma_first_match(ids, p);
                let k = choose|k: int| is_first_match(ids, p, k);
                assert(is_first_match(ids, p, k));
                lemma_claimed_len(ids.remove(i), entries.drop_first());
            },
            None => {
                lemma_claimed_len(ids, entries.drop_first());
            },
        }
    }
}

/// For a single id there is a single record.
pub proof fn lemma_single_id(id: Seq<char>, entries: Seq<EntryView>)
    ensures
        desktop_infos(seq![id], entries) == seq![unordered_infos(seq![id], entries)[0]],
{
    let ids = seq![id];
    let u = unordered_infos(ids, entries);
    lemma_claimed_len(ids, entries);
    assert(u.len() == 1);
    let x = u[0];
    let p = names_info(x);
    lemma_first_match(ids, p);
    if position(ids, x) is Some {
        let k = choose|k: int| is_first_match(ids, p, k);
        assert(is_first_match(ids, p, k));
        assert(position(ids, x) == Some(0int));
    }
    reveal_with_fuel(Seq::filter, 2);
    assert(u.drop_last() =~= Seq::<InfoView>::empty());
    assert(from_position(ids, u, 1) == Seq::<InfoView>::empty());
    assert(from_position(ids, u, 0) == u.filter(at_position(ids, Some(0int))) + from_position(
        ids,
        u,
        1,
    ));
    if position(ids, x) is None {
        assert(u.filter(at_position(ids, None)) =~= seq![x]);
        assert(u.filter(at_position(ids, Some(0int))) =~= Seq::<InfoView>::empty());
    } else {
        assert(u.filter(at_position(ids, None)) =~= Seq::<InfoView>::empty());
        assert(u.filter(at_position(ids, Some(0int))) =~= seq![x]);
    }
    assert(desktop_infos(ids, entries) =~= seq![x]);
}

/// The position of a record, when there is one, is a position of `ids`.
proof fn lemma_position_in_range(ids: Seq<Seq<char>>, x: InfoView)
    ensures
        position(ids, x) matches Some(p) ==> 0 <= p < ids.len(),
{
    if position(ids, x) is Some {
        let p = names_info(x);
        let k = choose|k: int| is_first_match(ids, p, k);
        assert(is_first_match(ids, p, k));
    }
}

/// Adding a record at the end of `s` adds one record to the groups from
/// position `q` on exactly when its position is `q` or later.
proof fn lemma_from_position_push(ids: Seq<Seq<char>>, s: Seq<InfoView>, x: InfoView, q: int)
    requires
        0 <= q,
    ensures
        from_position(ids, s.push(x), q).len() == from_position(ids, s, q).len() + (
        if (position(ids, x) matches Some(p) && q <= p < ids.len()) {
            1int
        } else {
            0int
        }),
    decreases ids.len() - q,
{
    reveal_with_fuel(Seq::filter, 1);
    assert(s.push(x).drop_last() =~= s);
    if q < ids.len() {
        lemma_from_position_push(ids, s, x, q + 1);
    }
}

/// Ordering by position neither drops nor repeats a record.
proof fn lemma_by_position_len(ids: Seq<Seq<char>>, s: Seq<InfoView>)
    ensures
        by_position(ids, s).len() == s.len(),
    decreases s.len(),
{
    if s.len() == 0 {
        assert(s.filter(at_position(ids, None)) =~= Seq::<InfoView>::empty()) by {
            reveal_with_fuel(Seq::filter, 1);
        }
        lemma_from_position_empty(ids, s, 0);
    } else {
        let t = s.drop_last();
        let x = s.last();
        assert(t.push(x) =~= s);
        lemma_by_position_len(ids, t);
        lemma_from_position_push(ids, t, x, 0);
        lemma_position_in_range(ids, x);
        reveal_with_fuel(Seq::filter, 1);
        assert(s.drop_last() =~= t);
    }
}

proof fn lemma_from_position_empty(ids: Seq<Seq<char>>, s: Seq<InfoView>, q: int)
    requires
        s.len() == 0,
        0 <= q,
    ensures
        from_position(ids, s, q).len() == 0,
    decreases ids.len() - q,
{
    if q < ids.len() {
        assert(s.filter(at_position(ids, Some(q))) =~= Seq::<InfoView>::empty()) by {
            reveal_with_fuel(Seq::filter, 1);
        }
        lemma_from_position_empty(ids, s, q + 1);
    }
}

/// There is one record per application id: each id is either claimed by an
/// entry, giving that entry's record, or gets a record of its own, and the
/// ordering keeps every record.
pub proof fn lemma_one_record_per_id(ids: Seq<Seq<char>>, entries: Seq<EntryView>)
    ensures
        desktop_infos(ids, entries).len() == ids.len(),
{
    lemma_claimed_len(ids, entries);
    lemma_by_position_len(ids, unordered_infos(ids, entries));
}

/// The icon for one application id: the icon of its single record, which
/// is the icon named by the first entry that names the id, else the id of
/// that entry, or the default icon (none) when no entry names it.
pub fn icon_for_app_id(app_id: String, entries: Vec<DesktopEntry>) -> (r: Option<String>)
    ensures
        opt_text(r) == desktop_infos(seq![app_id@], entry_views(entries@))[0].icon,
        desktop_infos(seq![app_id@], entry_views(entries@)).len() == 1,
{
    let ghost id = app_id@;
    let mut ids: Vec<String> = Vec::new();
    ids.push(app_id);
    proof {
        assert(texts(ids@) =~= seq![id]);
        lemma_single_id(id, entry_views(entries@));
    }
    let infos = desktop_info_for_app_ids(ids, entries);
    proof {
        assert(infos@.len() == info_views(infos@).len());
    }
    let first = &infos[0];
    clone_opt_text(&first.icon)
}

} // verus!
