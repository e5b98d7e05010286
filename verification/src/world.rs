//! The decisions of an endpoint's colour world that need no colour science:
//! which stored workspaces a snapshot drops or opens, which themes a new workspace
//! may draw from, which tab IDs belong to a workspace, which sidebar rows are
//! selected, which tab owns the agent shown in a pane on any endpoint, and how
//! reports of the host terminal's colours update the known host theme.
use vstd::prelude::*;
use crate::allocator::{names, Tab};
use crate::colour::Rgb;

verus! {

/// A tab as a shell snapshot lists it.
#[derive(Clone, Debug)]
pub struct SnapshotTab {
    pub workspace_id: String,
    pub tab_id: String,
    pub focused: bool,
}

/// A workspace as a shell snapshot lists it.
#[derive(Clone, Debug)]
pub struct SnapshotWorkspace {
    pub workspace_id: String,
    pub focused: bool,
}

/// Whether the snapshot lists a focused tab with ID `id`.
pub fn tab_focused(tabs: &Vec<SnapshotTab>, id: &String) -> (r: bool)
    ensures
        r == exists|k: int| 0 <= k < tabs@.len() && (#[trigger] tabs@[k]).tab_id@ == id@ && tabs@[k].focused,
{
    let mut i: usize = 0;
    while i < tabs.len()
        invariant
            i <= tabs@.len(),
            forall|k: int| 0 <= k < i ==> !((#[trigger] tabs@[k]).tab_id@ == id@ && tabs@[k].focused),
        decreases tabs@.len() - i,
    {
        if tabs[i].tab_id == *id && tabs[i].focused {
            assert(tabs@[i as int].tab_id@ == id@ && tabs@[i as int].focused);
            return true;
        }
        i += 1;
    }
    false
}

/// Whether the snapshot lists a focused workspace with ID `id`.
pub fn workspace_focused(workspaces: &Vec<SnapshotWorkspace>, id: &String) -> (r: bool)
    ensures
        r == exists|k: int| 0 <= k < workspaces@.len() && (#[trigger] workspaces@[k]).workspace_id@ == id@ && workspaces@[k].focused,
{
    let mut i: usize = 0;
    while i < workspaces.len()
        invariant
            i <= workspaces@.len(),
            forall|k: int| 0 <= k < i ==> !((#[trigger] workspaces@[k]).workspace_id@ == id@ && workspaces@[k].focused),
        decreases workspaces@.len() - i,
    {
        if workspaces[i].workspace_id == *id && workspaces[i].focused {
            assert(workspaces@[i as int].workspace_id@ == id@ && workspaces@[i as int].focused);
            return true;
        }
        i += 1;
    }
    false
}

/// Whether a workspace row in the sidebar is drawn selected: it is the
/// navigation target, or it is the focused workspace of the active endpoint.
pub fn workspace_row_selected(
    navigation: &Option<(String, String)>,
    endpoint: &String,
    workspace_id: &String,
    workspaces: &Vec<SnapshotWorkspace>,
    active: &String,
) -> (r: bool)
    ensures
        r == ((navigation matches Some((e, w)) && e@ == endpoint@ && w@ == workspace_id@) || ((exists|k: int|
            0 <= k < workspaces@.len() && (#[trigger] workspaces@[k]).workspace_id@ == workspace_id@
                && workspaces@[k].focused) && endpoint@ == active@)),
{
    let targeted = match navigation {
        Some((e, w)) => *e == *endpoint && *w == *workspace_id,
        None => false,
    };
    targeted || (workspace_focused(workspaces, workspace_id) && *endpoint == *active)
}

/// Whether the snapshot lists the workspace `id`.
pub fn is_listed(workspace_ids: &Vec<String>, id: &String) -> (found: bool)
    ensures
        found == names(workspace_ids@).contains(id@),
{
    let mut i: usize = 0;
    while i < workspace_ids.len()
        invariant
            i <= workspace_ids@.len(),
            forall|j: int| 0 <= j < i ==> workspace_ids@[j]@ != id@,
        decreases workspace_ids@.len() - i,
    {
        if workspace_ids[i] == *id {
            assert(names(workspace_ids@)[i as int] == id@);
            return true;
        }
        i += 1;
    }
    false
}

/// The stored workspaces that the snapshot no longer lists, in stored order.
pub open spec fn unlisted_ids(present: Seq<Seq<char>>, listed: Seq<Seq<char>>) -> Seq<Seq<char>>
    decreases present.len(),
{
    if present.len() == 0 {
        Seq::empty()
    } else if listed.contains(present.last()) {
        unlisted_ids(present.drop_last(), listed)
    } else {
        unlisted_ids(present.drop_last(), listed).push(present.last())
    }
}

/// The listed workspaces that have no stored colours yet, each once, in
/// snapshot order.
pub open spec fn unopened_ids(present: Seq<Seq<char>>, listed: Seq<Seq<char>>) -> Seq<Seq<char>>
    decreases listed.len(),
{
    if listed.len() == 0 {
        Seq::empty()
    } else {
        let rest = unopened_ids(present, listed.drop_last());
        if present.contains(listed.last()) || rest.contains(listed.last()) {
            rest
        } else {
            rest.push(listed.last())
        }
    }
}

/// The stored workspaces (`present`) that the snapshot (`listed`) no longer
/// lists: their colours are dropped.
pub fn unlisted(present: &Vec<String>, listed: &Vec<String>) -> (gone: Vec<String>)
    ensures
        names(gone@) == unlisted_ids(names(present@), names(listed@)),
{
    let mut gone: Vec<String> = Vec::new();
    let mut i: usize = 0;
    while i < present.len()
        invariant
            i <= present@.len(),
            names(gone@) == unlisted_ids(names(present@).take(i as int), names(listed@)),
        decreases present@.len() - i,
    {
        assert(names(present@).take(i + 1).drop_last() =~= names(present@).take(i as int));
        assert(names(present@).take(i + 1).last() == present@[i as int]@);
        if !is_listed(listed, &present[i]) {
            let ghost before = gone@;
            gone.push(present[i].clone());
            assert(names(gone@) =~= names(before).push(present@[i as int]@));
        }
        i += 1;
    }
    assert(names(present@).take(present@.len() as int) =~= names(present@));
    gone
}

/// The listed workspaces that have no stored colours (`present`) yet: each is
/// opened once, in snapshot order.
pub fn unopened(present: &Vec<String>, listed: &Vec<String>) -> (opening: Vec<String>)
    ensures
        names(opening@) == unopened_ids(names(present@), names(listed@)),
{
    let mut opening: Vec<String> = Vec::new();
    let mut i: usize = 0;
    while i < listed.len()
        invariant
            i <= listed@.len(),
            names(opening@) == unopened_ids(names(present@), names(listed@).take(i as int)),
        decreases listed@.len() - i,
    {
        assert(names(listed@).take(i + 1).drop_last() =~= names(listed@).take(i as int));
        assert(names(listed@).take(i + 1).last() == listed@[i as int]@);
        if !is_listed(present, &listed[i]) && !is_listed(&opening, &listed[i]) {
            let ghost before = opening@;
            opening.push(listed[i].clone());
            assert(names(opening@) =~= names(before).push(listed@[i as int]@));
        }
        i += 1;
    }
    assert(names(listed@).take(listed@.len() as int) =~= names(listed@));
    opening
}

/// Dropping the unlisted workspaces leaves exactly the stored ones that are
/// listed: every dropped workspace was stored and is not listed, and every
/// stored workspace that is not listed is dropped.
pub proof fn lemma_unlisted_are_dropped(present: Seq<Seq<char>>, listed: Seq<Seq<char>>)
    ensures
        forall|id: Seq<char>| #[trigger] unlisted_ids(present, listed).contains(id)
            <==> (present.contains(id) && !listed.contains(id)),
    decreases present.len(),
{
    if present.len() > 0 {
        let rest = present.drop_last();
        lemma_unlisted_are_dropped(rest, listed);
        assert forall|id: Seq<char>| #[trigger] unlisted_ids(present, listed).contains(id)
            <==> (present.contains(id) && !listed.contains(id)) by {
            assert(present =~= rest.push(present.last()));
            if present.contains(id) && id != present.last() {
                let k = choose|k: int| 0 <= k < present.len() && present[k] == id;
                assert(rest[k] == id);
            }
            if rest.contains(id) {
                let k = choose|k: int| 0 <= k < rest.len() && rest[k] == id;
                assert(present[k] == id);
            }
            if !listed.contains(present.last()) {
                let grown = unlisted_ids(rest, listed).push(present.last());
                assert(grown[grown.len() - 1] == present.last());
                if unlisted_ids(rest, listed).contains(id) {
                    let k = choose|k: int| 0 <= k < unlisted_ids(rest, listed).len() && unlisted_ids(rest, listed)[k] == id;
                    assert(grown[k] == id);
                }
                if grown.contains(id) && id != present.last() {
                    let k = choose|k: int| 0 <= k < grown.len() && grown[k] == id;
                    assert(unlisted_ids(rest, listed)[k] == id);
                }
            }
        }
    }
}

/// Opening the unopened workspaces gives colours to exactly the listed ones:
/// every opened workspace is listed and was not stored, none is opened twice,
/// and every listed workspace is stored or opened.
pub proof fn lemma_unopened_complete_the_listing(present: Seq<Seq<char>>, listed: Seq<Seq<char>>)
    ensures
        forall|id: Seq<char>| #[trigger] unopened_ids(present, listed).contains(id)
            <==> (listed.contains(id) && !present.contains(id)),
        unopened_ids(present, listed).no_duplicates(),
    decreases listed.len(),
{
    if listed.len() > 0 {
        let front = listed.drop_last();
        let last = listed.last();
        let rest = unopened_ids(present, front);
        lemma_unopened_complete_the_listing(present, front);
        assert(listed =~= front.push(last));
        assert forall|id: Seq<char>| #[trigger] unopened_ids(present, listed).contains(id)
            <==> (listed.contains(id) && !present.contains(id)) by {
            if listed.contains(id) && id != last {
                let k = choose|k: int| 0 <= k < listed.len() && listed[k] == id;
                assert(front[k] == id);
            }
            if front.contains(id) {
                let k = choose|k: int| 0 <= k < front.len() && front[k] == id;
                assert(listed[k] == id);
            }
            assert(listed[listed.len() - 1] == last);
            if !(present.contains(last) || rest.contains(last)) {
                let grown = rest.push(last);
                assert(grown[grown.len() - 1] == last);
                if rest.contains(id) {
                    let k = choose|k: int| 0 <= k < rest.len() && rest[k] == id;
                    assert(grown[k] == id);
                }
                if grown.contains(id) && id != last {
                    let k = choose|k: int| 0 <= k < grown.len() && grown[k] == id;
                    assert(rest[k] == id);
                }
            }
        }
        if !(present.contains(last) || rest.contains(last)) {
            let grown = rest.push(last);
            assert forall|a: int, b: int| 0 <= a < grown.len() && 0 <= b < grown.len() && a != b implies grown[a]
                != grown[b] by {
                if a == grown.len() - 1 {
                    assert(rest[b] == grown[b]);
                } else if b == grown.len() - 1 {
                    assert(rest[a] == grown[a]);
                }
            }
        }
    }
}

/// The themes `0..theme_count` that no existing workspace uses, in order.
pub open spec fn unused_themes(used: Seq<usize>, theme_count: nat) -> Seq<usize> {
    crate::allocator::indices(theme_count).filter(|t: usize| !used.contains(t))
}

/// The themes a new workspace may take: the unused ones, or all when every
/// theme is in use.
pub open spec fn pool_of(used: Seq<usize>, theme_count: nat) -> Seq<usize> {
    if unused_themes(used, theme_count).len() == 0 {
        crate::allocator::indices(theme_count)
    } else {
        unused_themes(used, theme_count)
    }
}

/// The themes a new workspace may take, given the themes in use.
pub fn theme_pool(used: &Vec<usize>, theme_count: usize) -> (pool: Vec<usize>)
    ensures
        pool@ == pool_of(used@, theme_count as nat),
{
    let ghost pred = |t: usize| !used@.contains(t);
    let mut pool: Vec<usize> = Vec::new();
    let mut t: usize = 0;
    while t < theme_count
        invariant
            t <= theme_count,
            pred == (|t: usize| !used@.contains(t)),
            pool@ == crate::allocator::indices(t as nat).filter(pred),
        decreases theme_count - t,
    {
        proof {
            assert(crate::allocator::indices((t + 1) as nat).drop_last() =~= crate::allocator::indices(t as nat));
            assert(crate::allocator::indices((t + 1) as nat).last() == t);
            reveal(Seq::filter);
        }
        if !uses(used, t) {
            pool.push(t);
        }
        t += 1;
    }
    assert(pool@ == unused_themes(used@, theme_count as nat));
    if pool.len() == 0 {
        let mut all: Vec<usize> = Vec::new();
        let mut k: usize = 0;
        while k < theme_count
            invariant
                k <= theme_count,
                all@ == crate::allocator::indices(k as nat),
            decreases theme_count - k,
        {
            all.push(k);
            assert(all@ =~= crate::allocator::indices((k + 1) as nat));
            k += 1;
        }
        all
    } else {
        pool
    }
}

/// Whether `used` holds `t`.
fn uses(used: &Vec<usize>, t: usize) -> (r: bool)
    ensures
        r == used@.contains(t),
{
    let mut i: usize = 0;
    while i < used.len()
        invariant
            i <= used@.len(),
            forall|j: int| 0 <= j < i ==> used@[j] != t,
        decreases used@.len() - i,
    {
        if used[i] == t {
            return true;
        }
        i += 1;
    }
    false
}

/// The IDs of the tabs of workspace `workspace`, in snapshot order.
pub open spec fn tab_ids_of(tabs: Seq<SnapshotTab>, workspace: Seq<char>) -> Seq<Seq<char>>
    decreases tabs.len(),
{
    if tabs.len() == 0 {
        Seq::empty()
    } else if tabs.last().workspace_id@ == workspace {
        tab_ids_of(tabs.drop_last(), workspace).push(tabs.last().tab_id@)
    } else {
        tab_ids_of(tabs.drop_last(), workspace)
    }
}

/// The IDs of the tabs that the snapshot places in `workspace`, in order.
pub fn tabs_of(tabs: &Vec<SnapshotTab>, workspace: &String) -> (ids: Vec<String>)
    ensures
        names(ids@) == tab_ids_of(tabs@, workspace@),
{
    let mut ids: Vec<String> = Vec::new();
    let mut i: usize = 0;
    while i < tabs.len()
        invariant
            i <= tabs@.len(),
            names(ids@) == tab_ids_of(tabs@.take(i as int), workspace@),
        decreases tabs@.len() - i,
    {
        assert(tabs@.take(i + 1).drop_last() =~= tabs@.take(i as int));
        if tabs[i].workspace_id == *workspace {
            let ghost before = ids@;
            ids.push(tabs[i].tab_id.clone());
            assert(names(ids@) =~= names(before).push(tabs@[i as int].tab_id@));
        }
        i += 1;
    }
    assert(tabs@.take(tabs@.len() as int) =~= tabs@);
    ids
}

/// Focus never changes which tabs a workspace has: two snapshots that list the
/// same tabs of the same workspaces, however focused, give every workspace the
/// same tab IDs, so reconciling with either changes nothing the other would not.
pub proof fn lemma_focus_never_changes_tabs(a: Seq<SnapshotTab>, b: Seq<SnapshotTab>, workspace: Seq<char>)
    requires
        a.len() == b.len(),
        forall|k: int| 0 <= k < a.len() ==> (#[trigger] a[k]).workspace_id@ == b[k].workspace_id@ && a[k].tab_id@
            == b[k].tab_id@,
    ensures
        tab_ids_of(a, workspace) == tab_ids_of(b, workspace),
    decreases a.len(),
{
    if a.len() > 0 {
        let (ra, rb) = (a.drop_last(), b.drop_last());
        assert forall|k: int| 0 <= k < ra.len() implies (#[trigger] ra[k]).workspace_id@ == rb[k].workspace_id@
            && ra[k].tab_id@ == rb[k].tab_id@ by {
            assert(ra[k] == a[k] && rb[k] == b[k]);
        }
        lemma_focus_never_changes_tabs(ra, rb, workspace);
        assert(a.last() == a[a.len() - 1] && b.last() == b[b.len() - 1]);
    }
}

/// Which of the host's default colours a report is about.
#[derive(Clone, Copy, Debug, PartialEq, Eq, Structural)]
pub enum DefaultColourKind {
    Foreground,
    Background,
}

/// A report from the host terminal.
#[derive(Clone, Debug)]
pub enum HostEvent {
    /// The host's default foreground or background colour.
    DefaultColour { kind: DefaultColourKind, colour: Rgb },
    /// Entries of the host's indexed palette.
    PaletteColours { colours: Vec<(u8, Rgb)> },
    /// Any other input.
    Other,
}

/// What is known of the host terminal's colours.
#[derive(Clone, Debug)]
pub struct HostTheme {
    pub foreground: Option<Rgb>,
    pub background: Option<Rgb>,
    /// The host's indexed palette, one entry per 8-bit index.
    pub palette: [Option<Rgb>; 256],
}

/// `palette` with the reported entries written in order (a later report of an
/// index wins).
pub open spec fn with_entries(palette: Seq<Option<Rgb>>, colours: Seq<(u8, Rgb)>) -> Seq<Option<Rgb>>
    decreases colours.len(),
{
    if colours.len() == 0 {
        palette
    } else {
        with_entries(palette, colours.drop_last()).update(colours.last().0 as int, Some(colours.last().1))
    }
}

/// The host theme after an event: a default colour report sets that colour,
/// a palette report sets its entries, and any other event changes nothing.
pub open spec fn host_after(fg: Option<Rgb>, bg: Option<Rgb>, palette: Seq<Option<Rgb>>, event: HostEvent) -> (
    Option<Rgb>,
    Option<Rgb>,
    Seq<Option<Rgb>>,
) {
    match event {
        HostEvent::DefaultColour { kind: DefaultColourKind::Foreground, colour } => (Some(colour), bg, palette),
        HostEvent::DefaultColour { kind: DefaultColourKind::Background, colour } => (fg, Some(colour), palette),
        HostEvent::PaletteColours { colours } => (fg, bg, with_entries(palette, colours@)),
        HostEvent::Other => (fg, bg, palette),
    }
}

fn same_rgb(a: Rgb, b: Rgb) -> (r: bool)
    ensures
        r == (a == b),
{
    if a.0[0] == b.0[0] && a.0[1] == b.0[1] && a.0[2] == b.0[2] {
        assert(a.0 =~= b.0);
        true
    } else {
        false
    }
}

fn same_entry(a: Option<Rgb>, b: Option<Rgb>) -> (r: bool)
    ensures
        r == (a == b),
{
    match (a, b) {
        (Some(x), Some(y)) => same_rgb(x, y),
        (None, None) => true,
        _ => false,
    }
}

impl HostTheme {
    /// The host's default background and foreground, once both have been
    /// reported; until then pane surfaces stay untinted.
    pub fn defaults(&self) -> (d: Option<(Rgb, Rgb)>)
        ensures
            d == match (self.background, self.foreground) {
                (Some(bg), Some(fg)) => Some((bg, fg)),
                _ => None,
            },
    {
        match (self.background, self.foreground) {
            (Some(bg), Some(fg)) => Some((bg, fg)),
            _ => None,
        }
    }

    /// Applies a host report; returns whether the known colours changed.
    pub fn update_host(&mut self, event: &HostEvent) -> (changed: bool)
        ensures
            (final(self).foreground, final(self).background, final(self).palette@) == host_after(
                old(self).foreground,
                old(self).background,
                old(self).palette@,
                *event,
            ),
            changed == ((final(self).foreground, final(self).background, final(self).palette@) != (
                old(self).foreground,
                old(self).background,
                old(self).palette@,
            )),
    {
        match event {
            HostEvent::DefaultColour { kind: DefaultColourKind::Foreground, colour } => {
                let changed = match self.foreground {
                    Some(c) => !same_rgb(c, *colour),
                    None => true,
                };
                self.foreground = Some(*colour);
                changed
            },
            HostEvent::DefaultColour { kind: DefaultColourKind::Background, colour } => {
                let changed = match self.background {
                    Some(c) => !same_rgb(c, *colour),
                    None => true,
                };
                self.background = Some(*colour);
                changed
            },
            HostEvent::PaletteColours { colours } => {
                let ghost before = self.palette@;
                let saved: [Option<Rgb>; 256] = self.palette;
                assert(saved@ == before);
                assert(before.len() == 256);
                let mut changed = false;
                let mut i: usize = 0;
                while i < colours.len()
                    invariant
                        i <= colours@.len(),
                        self.palette@ == with_entries(before, colours@.take(i as int)),
                        self.palette@.len() == before.len(),
                        before == old(self).palette@,
                        self.foreground == old(self).foreground,
                        self.background == old(self).background,
                    decreases colours@.len() - i,
                {
                    assert(colours@.take(i + 1).drop_last() =~= colours@.take(i as int));
                    let (index, colour) = colours[i];
                    self.palette[index as usize] = Some(colour);
                    i += 1;
                }
                assert(colours@.take(colours@.len() as int) =~= colours@);
                // Compare the whole palette with what it was.
                let mut k: usize = 0;
                while k < 256
                    invariant
                        k <= 256,
                        self.palette@.len() == 256,
                        old(self).palette@.len() == 256,
                        saved@ == old(self).palette@,
                        !changed ==> forall|j: int| 0 <= j < k ==> self.palette@[j] == old(self).palette@[j],
                        changed ==> exists|j: int| 0 <= j < k && self.palette@[j] != old(self).palette@[j],
                    decreases 256 - k,
                {
                    if !changed && !same_entry(self.palette[k], saved[k]) {
                        changed = true;
                    }
                    k += 1;
                }
                if !changed {
                    assert(self.palette@ =~= old(self).palette@);
                }
                changed
            },
            HostEvent::Other => false,
        }
    }
}

/// An agent as a shell snapshot lists it: the pane it runs in and the tab that owns that pane.
#[derive(Clone, Debug)]
pub struct SnapshotAgent {
    pub pane_id: String,
    pub workspace_id: String,
    pub tab_id: String,
    pub focused: bool,
}

/// The agents an endpoint's latest snapshot lists, if it has sent one.
#[derive(Clone, Debug)]
pub struct EndpointAgents {
    pub endpoint_id: String,
    pub agents: Option<Vec<SnapshotAgent>>,
}

/// What an agent row is painted with: the owning workspace and tab, and
/// whether the row is the focused agent on the active endpoint.
#[derive(Clone, Debug)]
pub struct AgentTarget {
    pub workspace_id: String,
    pub tab_id: String,
    pub selected: bool,
}

/// `k` is the first agent running in pane `pane`.
pub open spec fn is_first_agent(agents: Seq<SnapshotAgent>, pane: Seq<char>, k: int) -> bool {
    &&& 0 <= k < agents.len()
    &&& agents[k].pane_id@ == pane
    &&& forall|j: int| 0 <= j < k ==> (#[trigger] agents[j]).pane_id@ != pane
}

/// `k` is the first endpoint with ID `id`.
pub open spec fn is_first_endpoint(endpoints: Seq<EndpointAgents>, id: Seq<char>, k: int) -> bool {
    &&& 0 <= k < endpoints.len()
    &&& endpoints[k].endpoint_id@ == id
    &&& forall|j: int| 0 <= j < k ==> (#[trigger] endpoints[j]).endpoint_id@ != id
}

/// The agents listed for `endpoint`: the active snapshot's for the active
/// endpoint, otherwise those of the first endpoint with that ID, if it has a snapshot.
pub open spec fn agents_of(
    active_id: Seq<char>,
    active_agents: Seq<SnapshotAgent>,
    endpoints: Seq<EndpointAgents>,
    endpoint: Seq<char>,
) -> Option<Seq<SnapshotAgent>> {
    if endpoint == active_id {
        Some(active_agents)
    } else if exists|k: int| is_first_endpoint(endpoints, endpoint, k) {
        let k = choose|k: int| is_first_endpoint(endpoints, endpoint, k);
        match endpoints[k].agents {
            Some(v) => Some(v@),
            None => None,
        }
    } else {
        None
    }
}

/// The first agent running in pane `pane`.
pub fn find_agent(agents: &Vec<SnapshotAgent>, pane: &String) -> (k: Option<usize>)
    ensures
        match k {
            Some(k) => is_first_agent(agents@, pane@, k as int),
            None => forall|j: int| 0 <= j < agents@.len() ==> (#[trigger] agents@[j]).pane_id@ != pane@,
        },
{
    let mut i: usize = 0;
    while i < agents.len()
        invariant
            i <= agents@.len(),
            forall|j: int| 0 <= j < i ==> (#[trigger] agents@[j]).pane_id@ != pane@,
        decreases agents@.len() - i,
    {
        if agents[i].pane_id == *pane {
            return Some(i);
        }
        i += 1;
    }
    None
}

/// The first endpoint with ID `id`.
fn find_endpoint(endpoints: &Vec<EndpointAgents>, id: &String) -> (k: Option<usize>)
    ensures
        match k {
            Some(k) => is_first_endpoint(endpoints@, id@, k as int),
            None => forall|j: int| 0 <= j < endpoints@.len() ==> (#[trigger] endpoints@[j]).endpoint_id@ != id@,
        },
{
    let mut i: usize = 0;
    while i < endpoints.len()
        invariant
            i <= endpoints@.len(),
            forall|j: int| 0 <= j < i ==> (#[trigger] endpoints@[j]).endpoint_id@ != id@,
        decreases endpoints@.len() - i,
    {
        if endpoints[i].endpoint_id == *id {
            return Some(i);
        }
        i += 1;
    }
    None
}

/// The colour of the first tab with ID `tab_id`.
pub fn owning_tab_colour(tabs: &Vec<Tab>, tab_id: &String) -> (c: Option<usize>)
    ensures
        match c {
            Some(c) => exists|k: int| {
                &&& 0 <= k < tabs@.len()
                &&& #[trigger] tabs@[k].id@ == tab_id@
                &&& tabs@[k].colour == c
                &&& forall|j: int| 0 <= j < k ==> (#[trigger] tabs@[j]).id@ != tab_id@
            },
            None => forall|j: int| 0 <= j < tabs@.len() ==> (#[trigger] tabs@[j]).id@ != tab_id@,
        },
{
    let mut i: usize = 0;
    while i < tabs.len()
        invariant
            i <= tabs@.len(),
            forall|j: int| 0 <= j < i ==> (#[trigger] tabs@[j]).id@ != tab_id@,
        decreases tabs@.len() - i,
    {
        if tabs[i].id == *tab_id {
            assert(tabs@[i as int].id@ == tab_id@);
            return Some(tabs[i].colour);
        }
        i += 1;
    }
    None
}

/// `target` is the paint target of the first agent in pane `pane` among
/// `agents` (none when no agent runs there); it is selected when the agent is
/// focused and `on_active` holds.
pub open spec fn resolves_to(agents: Seq<SnapshotAgent>, pane: Seq<char>, on_active: bool, target: Option<AgentTarget>) -> bool {
    match target {
        None => forall|j: int| 0 <= j < agents.len() ==> (#[trigger] agents[j]).pane_id@ != pane,
        Some(t) => exists|k: int| {
            &&& #[trigger] is_first_agent(agents, pane, k)
            &&& t.workspace_id == agents[k].workspace_id
            &&& t.tab_id == agents[k].tab_id
            &&& t.selected == (on_active && agents[k].focused)
        },
    }
}

/// The agent in pane `pane` among `agents`, as a paint target.
fn target_in(agents: &Vec<SnapshotAgent>, pane: &String, on_active: bool) -> (target: Option<AgentTarget>)
    ensures
        resolves_to(agents@, pane@, on_active, target),
{
    match find_agent(agents, pane) {
        Some(k) => {
            let a = &agents[k];
            let t = AgentTarget { workspace_id: a.workspace_id.clone(), tab_id: a.tab_id.clone(), selected: on_active && a.focused };
            assert(is_first_agent(agents@, pane@, k as int));
            Some(t)
        },
        None => None,
    }
}

/// Resolves the agent shown in pane `pane` of endpoint `endpoint`: the first
/// agent in that pane among the endpoint's listed agents gives the owning
/// workspace and tab; the row is selected when it is the focused agent of the
/// active endpoint. `None` when the endpoint has no snapshot or no agent runs there.
pub fn resolve_agent(
    active_id: &String,
    active_agents: &Vec<SnapshotAgent>,
    endpoints: &Vec<EndpointAgents>,
    endpoint: &String,
    pane: &String,
) -> (target: Option<AgentTarget>)
    ensures
        match agents_of(active_id@, active_agents@, endpoints@, endpoint@) {
            None => target is None,
            Some(agents) => resolves_to(agents, pane@, endpoint@ == active_id@, target),
        },
{
    if *endpoint == *active_id {
        let r = target_in(active_agents, pane, true);
        assert(agents_of(active_id@, active_agents@, endpoints@, endpoint@) == Some(active_agents@));
        return r;
    }
    match find_endpoint(endpoints, endpoint) {
        Some(e) => {
            proof {
                let k = choose|k: int| is_first_endpoint(endpoints@, endpoint@, k);
                if k < e {
                    assert(endpoints@[k].endpoint_id@ != endpoint@);
                } else if e < k {
                    assert(endpoints@[e as int].endpoint_id@ != endpoint@);
                }
                assert(k == e);
            }
            match &endpoints[e].agents {
                Some(v) => {
                    assert(agents_of(active_id@, active_agents@, endpoints@, endpoint@) == Some(v@));
                    target_in(v, pane, false)
                },
                None => None,
            }
        },
        None => None,
    }
}

/// A new workspace takes a theme no other workspace uses while any is left;
/// the pool only holds real themes, and is never empty while themes exist.
pub proof fn lemma_pool_prefers_unused(used: Seq<usize>, theme_count: nat)
    ensures
        forall|t: usize| #[trigger] pool_of(used, theme_count).contains(t) ==> t < theme_count,
        unused_themes(used, theme_count).len() > 0 ==> forall|t: usize| #[trigger] pool_of(used, theme_count).contains(t) ==> !used.contains(t),
        theme_count > 0 ==> pool_of(used, theme_count).len() > 0,
{
    let all = crate::allocator::indices(theme_count);
    let pred = |t: usize| !used.contains(t);
    assert forall|t: usize| #[trigger] pool_of(used, theme_count).contains(t) implies t < theme_count by {
        if unused_themes(used, theme_count).len() > 0 {
            all.lemma_filter_contains_rev(pred, t);
        }
    }
    if unused_themes(used, theme_count).len() > 0 {
        assert forall|t: usize| #[trigger] pool_of(used, theme_count).contains(t) implies !used.contains(t) by {
            let i = choose|i: int| 0 <= i < unused_themes(used, theme_count).len() && unused_themes(used, theme_count)[i] == t;
            all.lemma_filter_pred(pred, i);
        }
    }
}

} // verus!
