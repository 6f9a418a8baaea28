use vstd::prelude::*;
use vstd::string::*;

verus! {

/// Where a view stands and how large it is, in logical pixels.
#[derive(Clone, Copy, Debug, PartialEq, Eq, Structural)]
pub struct Geometry {
    pub x: i64,
    pub y: i64,
    pub width: u64,
    pub height: u64,
}

/// What the registry knows of a live view.
#[derive(Clone, Copy, Debug, PartialEq, Eq, Structural)]
pub struct ViewState {
    pub visible: bool,
    pub geometry: Geometry,
}

/// The request to make a view for a project.
pub struct ViewConfig {
    pub project_id: String,
    pub geometry: Geometry,
    pub visible: bool,
}

/// Why a lifecycle operation was refused.
#[derive(Clone, Copy, Debug, PartialEq, Eq, Structural)]
pub enum ViewError {
    /// A project identifier must not be empty.
    InvalidProjectId,
    /// No live view belongs to the project.
    NotFound,
}

/// What `destroy` did to a view.
#[derive(Clone, Copy, Debug, PartialEq, Eq, Structural)]
pub enum DestroyOutcome {
    /// The view was removed.
    Destroyed,
    /// The surface cannot be destroyed, so the view was hidden instead.
    Suppressed,
    /// There was no such view; nothing was done.
    Absent,
}

/// A change that the host has to carry out on its rendering surfaces, in
/// the order given.
pub enum ViewAction {
    /// Make a view for the project, with this state.
    Create { project_id: String, state: ViewState },
    /// Destroy the project's view.
    Close { project_id: String },
    /// Show or suppress the project's view.
    SetVisible { project_id: String, visible: bool },
    /// Move the project's view.
    SetPosition { project_id: String, x: i64, y: i64 },
    /// Resize the project's view.
    SetSize { project_id: String, width: u64, height: u64 },
}

/// A change to carry out, as a mathematical value.
pub enum ActionView {
    Create(Seq<char>, ViewState),
    Close(Seq<char>),
    SetVisible(Seq<char>, bool),
    SetPosition(Seq<char>, i64, i64),
    SetSize(Seq<char>, u64, u64),
}

impl View for ViewAction {
    type V = ActionView;

    open spec fn view(&self) -> ActionView {
        match self {
            ViewAction::Create { project_id, state } => ActionView::Create(project_id@, *state),
            ViewAction::Close { project_id } => ActionView::Close(project_id@),
            ViewAction::SetVisible { project_id, visible } => ActionView::SetVisible(
                project_id@,
                *visible,
            ),
            ViewAction::SetPosition { project_id, x, y } => ActionView::SetPosition(
                project_id@,
                *x,
                *y,
            ),
            ViewAction::SetSize { project_id, width, height } => ActionView::SetSize(
                project_id@,
                *width,
                *height,
            ),
        }
    }
}

/// A list of changes, as mathematical values.
pub open spec fn actions_view(v: Seq<ViewAction>) -> Seq<ActionView> {
    v.map_values(|a: ViewAction| a@)
}

// ---------------------------------------------------------------------------
// The model: the live views, in the order they were made
// ---------------------------------------------------------------------------

/// A live view: the project it belongs to and its state.
pub struct ViewRecord {
    pub id: Seq<char>,
    pub state: ViewState,
}

/// The project has a live view.
pub open spec fn has_view(s: Seq<ViewRecord>, id: Seq<char>) -> bool {
    exists|i: int| 0 <= i < s.len() && s[i].id == id
}

/// No project has two live views.
pub open spec fn ids_unique(s: Seq<ViewRecord>) -> bool {
    forall|i: int, j: int| 0 <= i < j < s.len() ==> s[i].id != s[j].id
}

/// At most one view is visible.
pub open spec fn at_most_one_visible(s: Seq<ViewRecord>) -> bool {
    forall|i: int, j: int|
        0 <= i < s.len() && 0 <= j < s.len() && #[trigger] s[i].state.visible
            && #[trigger] s[j].state.visible ==> i == j
}

/// The view with its visibility set.
pub open spec fn with_visible(r: ViewRecord, v: bool) -> ViewRecord {
    ViewRecord { id: r.id, state: ViewState { visible: v, geometry: r.state.geometry } }
}

/// The view moved and resized.
pub open spec fn placed(r: ViewRecord, g: Geometry) -> ViewRecord {
    ViewRecord { id: r.id, state: ViewState { visible: r.state.visible, geometry: g } }
}

/// The views once every view of another project is displaced: destroyed
/// where the surface allows it, else hidden.
pub open spec fn displaced(s: Seq<ViewRecord>, id: Seq<char>, destroys: bool) -> Seq<ViewRecord>
    decreases s.len(),
{
    if s.len() == 0 {
        s
    } else {
        let p = displaced(s.drop_last(), id, destroys);
        let r = s.last();
        if r.id == id {
            p.push(r)
        } else if destroys {
            p
        } else {
            p.push(with_visible(r, false))
        }
    }
}

/// The changes that displace every view of another project, in order.
pub open spec fn displace_actions(s: Seq<ViewRecord>, id: Seq<char>, destroys: bool) -> Seq<
    ActionView,
>
    decreases s.len(),
{
    if s.len() == 0 {
        Seq::empty()
    } else {
        let p = displace_actions(s.drop_last(), id, destroys);
        let r = s.last();
        if r.id == id {
            p
        } else if destroys {
            p.push(ActionView::Close(r.id))
        } else {
            p.push(ActionView::SetVisible(r.id, false))
        }
    }
}

/// The views after `create`: all other projects displaced, then the
/// project's view made unless it is already live.
pub open spec fn created(s: Seq<ViewRecord>, id: Seq<char>, st: ViewState, destroys: bool) -> Seq<
    ViewRecord,
> {
    let k = displaced(s, id, destroys);
    if has_view(s, id) {
        k
    } else {
        k.push(ViewRecord { id, state: st })
    }
}

/// The changes that `create` asks for.
pub open spec fn create_actions(
    s: Seq<ViewRecord>,
    id: Seq<char>,
    st: ViewState,
    destroys: bool,
) -> Seq<ActionView> {
    let a = displace_actions(s, id, destroys);
    if has_view(s, id) {
        a
    } else {
        a.push(ActionView::Create(id, st))
    }
}

/// The views after `show`: the project's view visible, every other hidden.
pub open spec fn shown(s: Seq<ViewRecord>, id: Seq<char>) -> Seq<ViewRecord> {
    s.map_values(|r: ViewRecord| with_visible(r, r.id == id))
}

/// The changes that hide every view of another project, in order.
pub open spec fn hide_others_actions(s: Seq<ViewRecord>, id: Seq<char>) -> Seq<ActionView>
    decreases s.len(),
{
    if s.len() == 0 {
        Seq::empty()
    } else {
        let p = hide_others_actions(s.drop_last(), id);
        if s.last().id == id {
            p
        } else {
            p.push(ActionView::SetVisible(s.last().id, false))
        }
    }
}

/// The views after hiding the project's view.
pub open spec fn hidden_one(s: Seq<ViewRecord>, id: Seq<char>) -> Seq<ViewRecord> {
    s.map_values(|r: ViewRecord| if r.id == id { with_visible(r, false) } else { r })
}

/// The views after moving the project's view.
pub open spec fn placed_one(s: Seq<ViewRecord>, id: Seq<char>, g: Geometry) -> Seq<ViewRecord> {
    s.map_values(|r: ViewRecord| if r.id == id { placed(r, g) } else { r })
}

/// The views after moving every view.
pub open spec fn placed_all(s: Seq<ViewRecord>, g: Geometry) -> Seq<ViewRecord> {
    s.map_values(|r: ViewRecord| placed(r, g))
}

/// The changes that move one view: position first, then size.
pub open spec fn place_actions(id: Seq<char>, g: Geometry) -> Seq<ActionView> {
    seq![ActionView::SetPosition(id, g.x, g.y), ActionView::SetSize(id, g.width, g.height)]
}

/// The changes that move every view, one after the other.
pub open spec fn sync_actions(s: Seq<ViewRecord>, g: Geometry) -> Seq<ActionView>
    decreases s.len(),
{
    if s.len() == 0 {
        Seq::empty()
    } else {
        sync_actions(s.drop_last(), g) + place_actions(s.last().id, g)
    }
}

/// The views without the project's view.
pub open spec fn without(s: Seq<ViewRecord>, id: Seq<char>) -> Seq<ViewRecord>
    decreases s.len(),
{
    if s.len() == 0 {
        s
    } else {
        let p = without(s.drop_last(), id);
        if s.last().id == id {
            p
        } else {
            p.push(s.last())
        }
    }
}

/// The views after `destroy`.
pub open spec fn destroyed(s: Seq<ViewRecord>, id: Seq<char>, destroys: bool) -> Seq<ViewRecord> {
    if destroys {
        without(s, id)
    } else {
        hidden_one(s, id)
    }
}

// ---------------------------------------------------------------------------
// Facts about the model
// ---------------------------------------------------------------------------

proof fn lemma_displaced(s: Seq<ViewRecord>, id: Seq<char>, d: bool)
    ensures
        forall|i: int|
            0 <= i < displaced(s, id, d).len() ==> has_view(s, #[trigger] displaced(s, id, d)[i].id),
        has_view(displaced(s, id, d), id) == has_view(s, id),
        ids_unique(s) ==> ids_unique(displaced(s, id, d)),
        forall|i: int|
            0 <= i < displaced(s, id, d).len() && #[trigger] displaced(s, id, d)[i].id != id ==> !d
                && !displaced(s, id, d)[i].state.visible,
    decreases s.len(),
{
    if s.len() > 0 {
        let q = s.drop_last();
        let p = displaced(q, id, d);
        let t = displaced(s, id, d);
        let r = s.last();
        lemma_displaced(q, id, d);
        assert forall|i: int| 0 <= i < t.len() implies has_view(s, #[trigger] t[i].id) by {
            if i < p.len() {
                assert(t[i] == p[i]);
                let j = choose|j: int| 0 <= j < q.len() && q[j].id == p[i].id;
                assert(s[j] == q[j]);
            } else {
                assert(s[s.len() - 1] == r);
            }
        }
        if has_view(s, id) {
            let j = choose|j: int| 0 <= j < s.len() && s[j].id == id;
            if j < q.len() {
                assert(q[j] == s[j]);
                let m = choose|m: int| 0 <= m < p.len() && p[m].id == id;
                assert(t[m] == p[m]);
            } else {
                assert(t[t.len() - 1].id == id);
            }
        }
        if has_view(t, id) {
            let m = choose|m: int| 0 <= m < t.len() && t[m].id == id;
            assert(has_view(s, t[m].id));
        }
        if ids_unique(s) {
            assert(ids_unique(q)) by {
                assert forall|i: int, j: int| 0 <= i < j < q.len() implies q[i].id != q[j].id by {
                    assert(q[i] == s[i] && q[j] == s[j]);
                }
            }
            assert forall|i: int, j: int| 0 <= i < j < t.len() implies t[i].id != t[j].id by {
                assert(t[i] == p[i]);
                if j < p.len() {
                    assert(t[j] == p[j]);
                } else {
                    assert(t[j].id == r.id);
                    let k = choose|k: int| 0 <= k < q.len() && q[k].id == p[i].id;
                    assert(s[k] == q[k]);
                    assert(s[s.len() - 1] == r);
                }
            }
        }
        assert forall|i: int| 0 <= i < t.len() && #[trigger] t[i].id != id implies !d
            && !t[i].state.visible by {
            if i < p.len() {
                assert(t[i] == p[i]);
            }
        }
    }
}

proof fn lemma_displaced_twice(s: Seq<ViewRecord>, id: Seq<char>, d: bool)
    ensures
        displaced(displaced(s, id, d), id, d) == displaced(s, id, d),
    decreases s.len(),
{
    if s.len() > 0 {
        let q = s.drop_last();
        let p = displaced(q, id, d);
        let t = displaced(s, id, d);
        lemma_displaced_twice(q, id, d);
        let r = s.last();
        if r.id == id || !d {
            assert(t.drop_last() =~= p);
        } else {
            assert(t == p);
        }
    }
}

proof fn lemma_records_push(v: Seq<ViewEntry>, e: ViewEntry)
    ensures
        records(v.push(e)) == records(v).push(record_of(e)),
{
    assert(records(v.push(e)) =~= records(v).push(record_of(e)));
}

proof fn lemma_actions_push(v: Seq<ViewAction>, a: ViewAction)
    ensures
        actions_view(v.push(a)) == actions_view(v).push(a@),
{
    assert(actions_view(v.push(a)) =~= actions_view(v).push(a@));
}

proof fn lemma_without_absent(s: Seq<ViewRecord>, id: Seq<char>)
    requires
        !has_view(s, id),
    ensures
        without(s, id) == s,
    decreases s.len(),
{
    if s.len() > 0 {
        let q = s.drop_last();
        assert(!has_view(q, id)) by {
            if has_view(q, id) {
                let j = choose|j: int| 0 <= j < q.len() && q[j].id == id;
                assert(s[j] == q[j]);
            }
        }
        lemma_without_absent(q, id);
        assert(s.last() == s[s.len() - 1]);
        assert(q.push(s.last()) =~= s);
    }
}

proof fn lemma_without_at(s: Seq<ViewRecord>, id: Seq<char>, i: int)
    requires
        ids_unique(s),
        0 <= i < s.len(),
        s[i].id == id,
    ensures
        without(s, id) == s.remove(i),
    decreases s.len(),
{
    let q = s.drop_last();
    assert(ids_unique(q)) by {
        assert forall|a: int, b: int| 0 <= a < b < q.len() implies q[a].id != q[b].id by {
            assert(q[a] == s[a] && q[b] == s[b]);
        }
    }
    if i == s.len() - 1 {
        assert(!has_view(q, id)) by {
            if has_view(q, id) {
                let j = choose|j: int| 0 <= j < q.len() && q[j].id == id;
                assert(s[j] == q[j]);
            }
        }
        lemma_without_absent(q, id);
        assert(s.remove(i) =~= q);
    } else {
        assert(q[i] == s[i]);
        lemma_without_at(q, id, i);
        assert(s.last() == s[s.len() - 1]);
        assert(s.last().id != id);
        assert(q.remove(i).push(s.last()) =~= s.remove(i));
    }
}

proof fn lemma_without_keeps_unique(s: Seq<ViewRecord>, i: int)
    requires
        ids_unique(s),
        0 <= i < s.len(),
    ensures
        ids_unique(s.remove(i)),
        !has_view(s.remove(i), s[i].id),
{
    let t = s.remove(i);
    assert forall|a: int, b: int| 0 <= a < b < t.len() implies t[a].id != t[b].id by {
        let a2 = if a < i { a } else { a + 1 };
        let b2 = if b < i { b } else { b + 1 };
        assert(t[a] == s[a2] && t[b] == s[b2]);
    }
    if has_view(t, s[i].id) {
        let j = choose|j: int| 0 <= j < t.len() && t[j].id == s[i].id;
        let j2 = if j < i { j } else { j + 1 };
        assert(t[j] == s[j2]);
    }
}

/// The state that a configuration asks for.
pub open spec fn config_state(c: &ViewConfig) -> ViewState {
    ViewState { visible: c.visible, geometry: c.geometry }
}

// ---------------------------------------------------------------------------
// The registry
// ---------------------------------------------------------------------------

/// A live view as the registry holds it.
pub struct ViewEntry {
    pub project_id: String,
    pub state: ViewState,
}

/// The model of a held view.
pub open spec fn record_of(e: ViewEntry) -> ViewRecord {
    ViewRecord { id: e.project_id@, state: e.state }
}

/// The models of held views.
pub open spec fn records(v: Seq<ViewEntry>) -> Seq<ViewRecord> {
    v.map_values(|e: ViewEntry| record_of(e))
}

/// The project views of one exclusivity group, keyed by project: at most one
/// view per project, and (through the lifecycle operations) at most one
/// visible at a time.
pub struct ViewRegistry {
    entries: Vec<ViewEntry>,
    supports_destroy: bool,
}

impl View for ViewRegistry {
    type V = Seq<ViewRecord>;

    closed spec fn view(&self) -> Seq<ViewRecord> {
        records(self.entries@)
    }
}

impl ViewRegistry {
    /// Whether the surfaces can be destroyed (else they are only hidden).
    pub closed spec fn destroys(&self) -> bool {
        self.supports_destroy
    }

    /// The registry is well formed: no project has two views.
    pub open spec fn wf(&self) -> bool {
        ids_unique(self@)
    }

    /// An empty registry over surfaces that can, or cannot, be destroyed.
    pub fn new(supports_destroy: bool) -> (r: Self)
        ensures
            r@ == Seq::<ViewRecord>::empty(),
            r.destroys() == supports_destroy,
            r.wf(),
    {
        let r = ViewRegistry { entries: Vec::new(), supports_destroy };
        assert(r@ =~= Seq::<ViewRecord>::empty());
        r
    }

    /// Whether the surfaces can be destroyed.
    pub fn supports_destroy(&self) -> (r: bool)
        ensures
            r == self.destroys(),
    {
        self.supports_destroy
    }

    /// The number of live views.
    pub fn len(&self) -> (r: usize)
        ensures
            r == self@.len(),
    {
        self.entries.len()
    }

    /// The position of the project's view, if it has one.
    fn index_of(&self, id: &String) -> (r: Option<usize>)
        ensures
            match r {
                Some(i) => i < self@.len() && self@[i as int].id == id@,
                None => !has_view(self@, id@),
            },
    {
        let mut i: usize = 0;
        while i < self.entries.len()
            invariant
                i <= self.entries@.len(),
                forall|j: int| 0 <= j < i ==> self@[j].id != id@,
            decreases self.entries@.len() - i,
        {
            if self.entries[i].project_id == *id {
                return Some(i);
            }
            i += 1;
        }
        None
    }

    /// Whether the project has a live view.
    pub fn contains(&self, project_id: &str) -> (r: bool)
        ensures
            r == has_view(self@, project_id@),
    {
        self.index_of(&project_id.to_owned()).is_some()
    }

    /// Whether the project has a live view that is visible.
    pub fn is_visible(&self, project_id: &str) -> (r: bool)
        requires
            self.wf(),
        ensures
            r == exists|i: int|
                0 <= i < self@.len() && self@[i].id == project_id@ && self@[i].state.visible,
    {
        match self.index_of(&project_id.to_owned()) {
            Some(i) => self.entries[i].state.visible,
            None => false,
        }
    }

    /// Makes the project's view. Every view of another project is displaced
    /// first, whether visible or not: destroyed where the surfaces allow it,
    /// else hidden. If the project's view is live already nothing more is
    /// done; else it is made with the configured geometry and visibility.
    /// An empty project identifier is refused and nothing changes.
    pub fn create_view(&mut self, config: &ViewConfig) -> (r: Result<Vec<ViewAction>, ViewError>)
        requires
            old(self).wf(),
        ensures
            final(self).wf(),
            final(self).destroys() == old(self).destroys(),
            config.project_id@.len() == 0 ==> r == Err::<Vec<ViewAction>, ViewError>(
                ViewError::InvalidProjectId,
            ) && final(self)@ == old(self)@,
            config.project_id@.len() > 0 ==> r is Ok && actions_view(r->Ok_0@) == create_actions(
                old(self)@,
                config.project_id@,
                config_state(config),
                old(self).destroys(),
            ) && final(self)@ == created(
                old(self)@,
                config.project_id@,
                config_state(config),
                old(self).destroys(),
            ),
    {
        let id = &config.project_id;
        if id.as_str().is_empty() {
            return Err(ViewError::InvalidProjectId);
        }
        let found = self.index_of(id).is_some();
        let ghost s0 = self@;
        let ghost d = self.supports_destroy;
        let mut rest: Vec<ViewEntry> = Vec::new();
        std::mem::swap(&mut rest, &mut self.entries);
        let ghost orig = rest@;
        let mut acts: Vec<ViewAction> = Vec::new();
        let ghost mut k: int = 0;
        assert(records(self.entries@) =~= displaced(s0.take(0), id@, d));
        assert(actions_view(acts@) =~= displace_actions(s0.take(0), id@, d));
        while rest.len() > 0
            invariant
                0 <= k <= orig.len(),
                rest@ == orig.subrange(k, orig.len() as int),
                s0 == records(orig),
                d == self.supports_destroy,
                records(self.entries@) == displaced(s0.take(k), id@, d),
                actions_view(acts@) == displace_actions(s0.take(k), id@, d),
            decreases rest@.len(),
        {
            let e = rest.remove(0);
            proof {
                assert(s0.take(k + 1).drop_last() =~= s0.take(k));
                assert(s0.take(k + 1).last() == record_of(e));
            }
            if e.project_id == *id {
                proof {
                    lemma_records_push(self.entries@, e);
                }
                self.entries.push(e);
            } else if self.supports_destroy {
                let a = ViewAction::Close { project_id: e.project_id };
                proof {
                    lemma_actions_push(acts@, a);
                }
                acts.push(a);
            } else {
                let a = ViewAction::SetVisible { project_id: e.project_id.clone(), visible: false };
                let h = ViewEntry {
                    project_id: e.project_id,
                    state: ViewState { visible: false, geometry: e.state.geometry },
                };
                proof {
                    lemma_actions_push(acts@, a);
                    lemma_records_push(self.entries@, h);
                }
                acts.push(a);
                self.entries.push(h);
            }
            proof {
                k = k + 1;
            }
        }
        assert(s0.take(k) =~= s0);
        proof {
            lemma_displaced(s0, id@, d);
        }
        if !found {
            let st = ViewState { visible: config.visible, geometry: config.geometry };
            let h = ViewEntry { project_id: id.clone(), state: st };
            let a = ViewAction::Create { project_id: id.clone(), state: st };
            proof {
                lemma_actions_push(acts@, a);
                lemma_records_push(self.entries@, h);
            }
            acts.push(a);
            self.entries.push(h);
            assert(ids_unique(self@)) by {
                let t = displaced(s0, id@, d);
                assert forall|i: int, j: int| 0 <= i < j < self@.len() implies self@[i].id
                    != self@[j].id by {
                    assert(self@[i] == t[i]);
                    if j == t.len() {
                        assert(has_view(s0, t[i].id));
                    } else {
                        assert(self@[j] == t[j]);
                    }
                }
            }
        }
        Ok(acts)
    }

    /// Sets the state of the view at position `i`.
    fn set_state(&mut self, i: usize, st: ViewState)
        requires
            i < old(self)@.len(),
        ensures
            final(self)@ == old(self)@.update(i as int, ViewRecord { id: old(self)@[i as int].id, state: st }),
            final(self).destroys() == old(self).destroys(),
    {
        let ghost before = self.entries@;
        self.entries[i].state = st;
        assert(self@ =~= records(before).update(i as int, ViewRecord { id: records(before)[i as int].id, state: st }));
    }

    /// Shows the project's view and hides every other view, the others
    /// first. A project without a live view is reported as not found and
    /// nothing changes.
    pub fn show_view(&mut self, project_id: &str) -> (r: Result<Vec<ViewAction>, ViewError>)
        requires
            old(self).wf(),
        ensures
            final(self).wf(),
            final(self).destroys() == old(self).destroys(),
            !has_view(old(self)@, project_id@) ==> r == Err::<Vec<ViewAction>, ViewError>(
                ViewError::NotFound,
            ) && final(self)@ == old(self)@,
            has_view(old(self)@, project_id@) ==> r is Ok && actions_view(r->Ok_0@)
                == hide_others_actions(old(self)@, project_id@).push(
                ActionView::SetVisible(project_id@, true),
            ) && final(self)@ == shown(old(self)@, project_id@),
    {
        let id = project_id.to_owned();
        if self.index_of(&id).is_none() {
            return Err(ViewError::NotFound);
        }
        let ghost s0 = self@;
        let mut acts: Vec<ViewAction> = Vec::new();
        let mut i: usize = 0;
        assert(actions_view(acts@) =~= hide_others_actions(s0.take(0), id@));
        while i < self.entries.len()
            invariant
                self@.len() == s0.len(),
                i <= s0.len(),
                self.destroys() == old(self).destroys(),
                s0 == old(self)@,
                forall|j: int| 0 <= j < i ==> self@[j] == with_visible(s0[j], s0[j].id == id@),
                forall|j: int| i <= j < s0.len() ==> self@[j] == s0[j],
                actions_view(acts@) == hide_others_actions(s0.take(i as int), id@),
            decreases s0.len() - i,
        {
            let is_target = self.entries[i].project_id == id;
            proof {
                assert(s0.take(i + 1).drop_last() =~= s0.take(i as int));
                assert(s0.take(i + 1).last() == s0[i as int]);
            }
            if !is_target {
                let a = ViewAction::SetVisible {
                    project_id: self.entries[i].project_id.clone(),
                    visible: false,
                };
                proof {
                    lemma_actions_push(acts@, a);
                }
                acts.push(a);
            }
            let st = ViewState { visible: is_target, geometry: self.entries[i].state.geometry };
            self.set_state(i, st);
            i += 1;
        }
        assert(s0.take(s0.len() as int) =~= s0);
        let a = ViewAction::SetVisible { project_id: id, visible: true };
        proof {
            lemma_actions_push(acts@, a);
        }
        acts.push(a);
        assert(self@ =~= shown(s0, id@));
        Ok(acts)
    }

    /// Hides the project's view; a project without a live view is no error
    /// and nothing changes.
    pub fn hide_view(&mut self, project_id: &str) -> (r: Vec<ViewAction>)
        requires
            old(self).wf(),
        ensures
            final(self).wf(),
            final(self).destroys() == old(self).destroys(),
            final(self)@ == hidden_one(old(self)@, project_id@),
            has_view(old(self)@, project_id@) ==> actions_view(r@) == seq![
                ActionView::SetVisible(project_id@, false),
            ],
            !has_view(old(self)@, project_id@) ==> r@.len() == 0,
    {
        let id = project_id.to_owned();
        let ghost s0 = self@;
        match self.index_of(&id) {
            None => {
                assert(hidden_one(s0, id@) =~= s0);
                Vec::new()
            },
            Some(i) => {
                let st = ViewState { visible: false, geometry: self.entries[i].state.geometry };
                self.set_state(i, st);
                assert(self@ =~= hidden_one(s0, id@));
                let r = vec![ViewAction::SetVisible { project_id: id, visible: false }];
                assert(actions_view(r@) =~= seq![ActionView::SetVisible(project_id@, false)]);
                r
            },
        }
    }

    /// Destroys the project's view where the surfaces allow it, else hides
    /// it, and says which; a project without a live view is no error and
    /// nothing changes.
    pub fn destroy_view(&mut self, project_id: &str) -> (r: (DestroyOutcome, Vec<ViewAction>))
        requires
            old(self).wf(),
        ensures
            final(self).wf(),
            final(self).destroys() == old(self).destroys(),
            final(self)@ == if has_view(old(self)@, project_id@) {
                destroyed(old(self)@, project_id@, old(self).destroys())
            } else {
                old(self)@
            },
            !has_view(old(self)@, project_id@) ==> r.0 == DestroyOutcome::Absent && r.1@.len() == 0,
            has_view(old(self)@, project_id@) && old(self).destroys() ==> r.0
                == DestroyOutcome::Destroyed && actions_view(r.1@) == seq![
                ActionView::Close(project_id@),
            ],
            has_view(old(self)@, project_id@) && !old(self).destroys() ==> r.0
                == DestroyOutcome::Suppressed && actions_view(r.1@) == seq![
                ActionView::SetVisible(project_id@, false),
            ],
    {
        let id = project_id.to_owned();
        let ghost s0 = self@;
        match self.index_of(&id) {
            None => (DestroyOutcome::Absent, Vec::new()),
            Some(i) => {
                if self.supports_destroy {
                    self.entries.remove(i);
                    proof {
                        assert(self@ =~= s0.remove(i as int));
                        lemma_without_at(s0, id@, i as int);
                        lemma_without_keeps_unique(s0, i as int);
                    }
                    let r = vec![ViewAction::Close { project_id: id }];
                    assert(actions_view(r@) =~= seq![ActionView::Close(project_id@)]);
                    (DestroyOutcome::Destroyed, r)
                } else {
                    let st = ViewState { visible: false, geometry: self.entries[i].state.geometry };
                    self.set_state(i, st);
                    assert(self@ =~= hidden_one(s0, id@));
                    let r = vec![ViewAction::SetVisible { project_id: id, visible: false }];
                    assert(actions_view(r@) =~= seq![ActionView::SetVisible(project_id@, false)]);
                    (DestroyOutcome::Suppressed, r)
                }
            },
        }
    }

    /// Drops the project's view from the registry without asking the host
    /// for anything: for a view that the host failed to make.
    pub fn forget(&mut self, project_id: &str)
        requires
            old(self).wf(),
        ensures
            final(self).wf(),
            final(self).destroys() == old(self).destroys(),
            final(self)@ == without(old(self)@, project_id@),
            !has_view(final(self)@, project_id@),
    {
        let id = project_id.to_owned();
        let ghost s0 = self@;
        match self.index_of(&id) {
            None => {
                proof {
                    lemma_without_absent(s0, id@);
                }
            },
            Some(i) => {
                self.entries.remove(i);
                proof {
                    assert(self@ =~= s0.remove(i as int));
                    lemma_without_at(s0, id@, i as int);
                    lemma_without_keeps_unique(s0, i as int);
                }
            },
        }
    }

    /// Moves and resizes the project's view, position first; a project
    /// without a live view is reported as not found and nothing changes.
    pub fn move_view(&mut self, project_id: &str, geometry: Geometry) -> (r: Result<
        Vec<ViewAction>,
        ViewError,
    >)
        requires
            old(self).wf(),
        ensures
            final(self).wf(),
            final(self).destroys() == old(self).destroys(),
            !has_view(old(self)@, project_id@) ==> r == Err::<Vec<ViewAction>, ViewError>(
                ViewError::NotFound,
            ) && final(self)@ == old(self)@,
            has_view(old(self)@, project_id@) ==> r is Ok && actions_view(r->Ok_0@)
                == place_actions(project_id@, geometry) && final(self)@ == placed_one(
                old(self)@,
                project_id@,
                geometry,
            ),
    {
        let id = project_id.to_owned();
        let ghost s0 = self@;
        match self.index_of(&id) {
            None => Err(ViewError::NotFound),
            Some(i) => {
                let st = ViewState { visible: self.entries[i].state.visible, geometry };
                self.set_state(i, st);
                assert(self@ =~= placed_one(s0, id@, geometry));
                let r = vec![
                    ViewAction::SetPosition { project_id: id.clone(), x: geometry.x, y: geometry.y },
                    ViewAction::SetSize {
                        project_id: id,
                        width: geometry.width,
                        height: geometry.height,
                    },
                ];
                assert(actions_view(r@) =~= place_actions(project_id@, geometry));
                Ok(r)
            },
        }
    }

    /// Moves and resizes every view, one after the other, each position
    /// first.
    pub fn sync_all_views(&mut self, geometry: Geometry) -> (r: Vec<ViewAction>)
        requires
            old(self).wf(),
        ensures
            final(self).wf(),
            final(self).destroys() == old(self).destroys(),
            final(self)@ == placed_all(old(self)@, geometry),
            actions_view(r@) == sync_actions(old(self)@, geometry),
    {
        let ghost s0 = self@;
        let mut acts: Vec<ViewAction> = Vec::new();
        let mut i: usize = 0;
        assert(actions_view(acts@) =~= sync_actions(s0.take(0), geometry));
        while i < self.entries.len()
            invariant
                self@.len() == s0.len(),
                i <= s0.len(),
                self.destroys() == old(self).destroys(),
                forall|j: int| 0 <= j < i ==> self@[j] == placed(s0[j], geometry),
                forall|j: int| i <= j < s0.len() ==> self@[j] == s0[j],
                actions_view(acts@) == sync_actions(s0.take(i as int), geometry),
            decreases s0.len() - i,
        {
            proof {
                assert(s0.take(i + 1).drop_last() =~= s0.take(i as int));
                assert(s0.take(i + 1).last() == s0[i as int]);
            }
            let a = ViewAction::SetPosition {
                project_id: self.entries[i].project_id.clone(),
                x: geometry.x,
                y: geometry.y,
            };
            let b = ViewAction::SetSize {
                project_id: self.entries[i].project_id.clone(),
                width: geometry.width,
                height: geometry.height,
            };
            proof {
                lemma_actions_push(acts@, a);
                lemma_actions_push(acts@.push(a), b);
                assert(actions_view(acts@).push(a@).push(b@) =~= actions_view(acts@) + place_actions(s0[i as int].id, geometry));
            }
            acts.push(a);
            acts.push(b);
            let st = ViewState { visible: self.entries[i].state.visible, geometry };
            self.set_state(i, st);
            i += 1;
        }
        assert(s0.take(s0.len() as int) =~= s0);
        assert(self@ =~= placed_all(s0, geometry));
        acts
    }
}

// ---------------------------------------------------------------------------
// Laws of the lifecycle
// ---------------------------------------------------------------------------

/// Creating a project's view twice leaves exactly one live view for it, and
/// the second creation changes nothing and makes nothing new.
pub proof fn lemma_create_twice(
    s: Seq<ViewRecord>,
    id: Seq<char>,
    st: ViewState,
    st2: ViewState,
    destroys: bool,
)
    requires
        ids_unique(s),
    ensures
        has_view(created(s, id, st, destroys), id),
        ids_unique(created(s, id, st, destroys)),
        created(created(s, id, st, destroys), id, st2, destroys) == created(s, id, st, destroys),
        create_actions(created(s, id, st, destroys), id, st2, destroys) == displace_actions(
            created(s, id, st, destroys),
            id,
            destroys,
        ),
{
    let t = displaced(s, id, destroys);
    let s1 = created(s, id, st, destroys);
    lemma_displaced(s, id, destroys);
    lemma_displaced_twice(s, id, destroys);
    if !has_view(s, id) {
        let n = ViewRecord { id, state: st };
        assert(s1[s1.len() - 1].id == id);
        assert(s1.drop_last() =~= t);
        assert(displaced(s1, id, destroys) == displaced(t, id, destroys).push(n));
        assert forall|i: int, j: int| 0 <= i < j < s1.len() implies s1[i].id != s1[j].id by {
            assert(s1[i] == t[i]);
            if j == t.len() {
                assert(has_view(s, t[i].id));
            } else {
                assert(s1[j] == t[j]);
            }
        }
    }
}

/// After `show`, the project's view is the one visible view.
pub proof fn lemma_show_exclusive(s: Seq<ViewRecord>, id: Seq<char>)
    requires
        ids_unique(s),
        has_view(s, id),
    ensures
        has_view(shown(s, id), id),
        forall|i: int|
            0 <= i < s.len() ==> (#[trigger] shown(s, id)[i].state.visible <==> shown(s, id)[i].id
                == id),
        at_most_one_visible(shown(s, id)),
{
    let t = shown(s, id);
    let j = choose|j: int| 0 <= j < s.len() && s[j].id == id;
    assert(t[j].id == id);
    assert forall|a: int, b: int|
        0 <= a < t.len() && 0 <= b < t.len() && #[trigger] t[a].state.visible
            && #[trigger] t[b].state.visible implies a == b by {
        if a != b {
            if a < b {
                assert(s[a].id != s[b].id);
            } else {
                assert(s[b].id != s[a].id);
            }
        }
    }
}

/// After `create`, no view of another project is visible, and none is left
/// at all where the surfaces can be destroyed; a project that had no view
/// gets one in the configured state. So at most one view is visible.
pub proof fn lemma_create_displaces(s: Seq<ViewRecord>, id: Seq<char>, st: ViewState, destroys: bool)
    requires
        ids_unique(s),
    ensures
        forall|i: int|
            0 <= i < created(s, id, st, destroys).len() && #[trigger] created(
                s,
                id,
                st,
                destroys,
            )[i].id != id ==> !destroys && !created(s, id, st, destroys)[i].state.visible,
        !has_view(s, id) ==> created(s, id, st, destroys).last() == (ViewRecord { id, state: st }),
        at_most_one_visible(created(s, id, st, destroys)),
{
    let t = displaced(s, id, destroys);
    let s1 = created(s, id, st, destroys);
    lemma_displaced(s, id, destroys);
    lemma_create_twice(s, id, st, st, destroys);
    assert forall|i: int|
        0 <= i < s1.len() && #[trigger] s1[i].id != id implies !destroys && !s1[i].state.visible by {
        assert(s1[i] == t[i]);
    }
    assert forall|a: int, b: int|
        0 <= a < s1.len() && 0 <= b < s1.len() && #[trigger] s1[a].state.visible
            && #[trigger] s1[b].state.visible implies a == b by {
        assert(s1[a].id == id);
        assert(s1[b].id == id);
        if a < b {
            assert(s1[a].id != s1[b].id);
        } else if b < a {
            assert(s1[b].id != s1[a].id);
        }
    }
}

/// Every lifecycle operation keeps at most one view visible.
pub proof fn lemma_exclusivity_kept(
    s: Seq<ViewRecord>,
    id: Seq<char>,
    st: ViewState,
    g: Geometry,
    destroys: bool,
)
    requires
        ids_unique(s),
        at_most_one_visible(s),
    ensures
        at_most_one_visible(created(s, id, st, destroys)),
        has_view(s, id) ==> at_most_one_visible(shown(s, id)),
        at_most_one_visible(hidden_one(s, id)),
        at_most_one_visible(destroyed(s, id, destroys)),
        at_most_one_visible(placed_one(s, id, g)),
        at_most_one_visible(placed_all(s, g)),
{
    lemma_create_displaces(s, id, st, destroys);
    if has_view(s, id) {
        lemma_show_exclusive(s, id);
    }
    let h = hidden_one(s, id);
    assert forall|a: int, b: int|
        0 <= a < h.len() && 0 <= b < h.len() && #[trigger] h[a].state.visible
            && #[trigger] h[b].state.visible implies a == b by {
        assert(s[a].state.visible && s[b].state.visible);
    }
    let moved_one = placed_one(s, id, g);
    assert forall|a: int, b: int|
        0 <= a < moved_one.len() && 0 <= b < moved_one.len() && #[trigger] moved_one[a].state.visible
            && #[trigger] moved_one[b].state.visible implies a == b by {
        assert(s[a].state.visible && s[b].state.visible);
    }
    let moved_all = placed_all(s, g);
    assert forall|a: int, b: int|
        0 <= a < moved_all.len() && 0 <= b < moved_all.len() && #[trigger] moved_all[a].state.visible
            && #[trigger] moved_all[b].state.visible implies a == b by {
        assert(s[a].state.visible && s[b].state.visible);
    }
    if destroys {
        if has_view(s, id) {
            let i = choose|i: int| 0 <= i < s.len() && s[i].id == id;
            lemma_without_at(s, id, i);
            let w = s.remove(i);
            assert forall|a: int, b: int|
                0 <= a < w.len() && 0 <= b < w.len() && #[trigger] w[a].state.visible
                    && #[trigger] w[b].state.visible implies a == b by {
                let a2 = if a < i { a } else { a + 1 };
                let b2 = if b < i { b } else { b + 1 };
                assert(w[a] == s[a2] && w[b] == s[b2]);
            }
        } else {
            lemma_without_absent(s, id);
        }
    }
}

} // verus!
