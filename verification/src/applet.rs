//! The applet's memory of layouts per window and per application, and its
//! decisions on focus changes, layout polls and window closes.
//!
//! The memory per application outlives the windows and the applet itself: it
//! is what the applet saves, and what it starts from after a restart. A window
//! that gains focus gets back the layout remembered for it, or else the one
//! remembered for its application.
//!
//! The applet itself reads and writes the compositor's configuration; each
//! decision here takes what was read as a plain value and says what to write.

use vstd::prelude::*;

use crate::focus::elapsed;
use crate::text::{to_uppercase, uppercase};
use crate::text_map::{fold_pairs, keys_ascending, lemma_fold_pairs_ascending, map_of, Pairs, TextMap};
use crate::xkb::{activation, active_layout, layout_names, make_layout_active, XkbConfig};

verus! {

/// The layout assumed when the configuration cannot be read.
pub open spec fn fallback_layout() -> Seq<char> {
    seq!['u', 's']
}

/// While this many microseconds have not passed since the applet wrote the
/// configuration, polls are skipped so as not to read back a stale layout.
pub const WRITE_COOLDOWN_MICROS: u64 = 500_000;

/// What the applet remembers, as plain texts.
pub struct AppletView {
    /// Window key to the layout it had when it lost focus.
    pub layouts: Map<Seq<char>, Seq<char>>,
    /// Window key to its application id, for display.
    pub names: Map<Seq<char>, Seq<char>>,
    /// Application id to the layout last remembered for one of its windows.
    pub app_layouts: Map<Seq<char>, Seq<char>>,
    /// The focused window's key.
    pub current_app: Option<Seq<char>>,
    /// The active layout as the applet knows it.
    pub current_layout: Seq<char>,
    /// When the applet last wrote the configuration.
    pub last_write_time: Option<u64>,
}

/// `layout` remembered for window `window` and for its application, when the
/// application is known.
pub open spec fn remember(v: AppletView, window: Seq<char>, layout: Seq<char>) -> AppletView {
    AppletView {
        layouts: v.layouts.insert(window, layout),
        app_layouts: if v.names.contains_key(window) {
            v.app_layouts.insert(v.names[window], layout)
        } else {
            v.app_layouts
        },
        ..v
    }
}

/// The text of an optional string.
pub open spec fn opt_view(s: Option<String>) -> Option<Seq<char>> {
    match s {
        Some(t) => Some(t@),
        None => None,
    }
}

/// State after window `id` of application `app_id` gains focus: the outgoing
/// window (and its application) keeps the current layout, the incoming one
/// becomes current.
pub open spec fn focus_state(v: AppletView, app_id: Seq<char>, id: Seq<char>) -> AppletView {
    let named = AppletView { names: v.names.insert(id, app_id), ..v };
    let kept = match v.current_app {
        Some(a) => remember(named, a, v.current_layout),
        None => named,
    };
    AppletView { current_app: Some(id), ..kept }
}

/// The layout remembered for window `id` of application `app_id` in `w`: the
/// window's own, or else its application's.
pub open spec fn remembered_for(w: AppletView, app_id: Seq<char>, id: Seq<char>) -> Option<Seq<char>> {
    if w.layouts.contains_key(id) {
        Some(w.layouts[id])
    } else if w.app_layouts.contains_key(app_id) {
        Some(w.app_layouts[app_id])
    } else {
        None
    }
}

/// The layout to restore when window `id` gains focus: the one remembered for
/// it (or for its application), when that differs from the current layout.
pub open spec fn focus_restore(v: AppletView, app_id: Seq<char>, id: Seq<char>) -> Option<Seq<char>> {
    match remembered_for(focus_state(v, app_id, id), app_id, id) {
        Some(d) if d != v.current_layout => Some(d),
        _ => None,
    }
}

/// State after the applet wrote `desired` as the active layout at time `now`.
pub open spec fn restored_state(v: AppletView, desired: Seq<char>, now: u64) -> AppletView {
    AppletView { current_layout: desired, last_write_time: Some(now), ..v }
}

/// State after window `id` closed: it is forgotten; what its application
/// remembers stays.
pub open spec fn closed_state(v: AppletView, id: Seq<char>) -> AppletView {
    AppletView { layouts: v.layouts.remove(id), names: v.names.remove(id), ..v }
}

/// A poll at time `now` reads the configuration: the cooldown after the
/// applet's own write has passed.
pub open spec fn poll_due_at(v: AppletView, now: u64) -> bool {
    !(v.last_write_time matches Some(t) && elapsed(t, now) < WRITE_COOLDOWN_MICROS)
}

/// State after a poll found `active` to be the active layout: a change made
/// outside the applet becomes the current layout, remembered for the focused window.
pub open spec fn observed_state(v: AppletView, active: Option<Seq<char>>) -> AppletView {
    match active {
        Some(a) if a != v.current_layout => {
            let changed = AppletView { current_layout: a, ..v };
            match v.current_app {
                Some(app) => remember(changed, app, a),
                None => changed,
            }
        },
        _ => v,
    }
}

/// The active layout of an optional configuration.
pub open spec fn active_of(cfg: Option<XkbConfig>) -> Option<Seq<char>> {
    match cfg {
        Some(c) if layout_names(c.layout@).len() > 0 => Some(layout_names(c.layout@)[0]),
        _ => None,
    }
}

/// The layout the applet starts with: the configuration's active layout, or
/// `us` when there is none.
pub open spec fn start_layout(cfg: Option<XkbConfig>) -> Seq<char> {
    match active_of(cfg) {
        Some(a) => a,
        None => fallback_layout(),
    }
}

/// The layout the applet starts with is never empty.
pub proof fn lemma_start_layout_non_empty(cfg: Option<XkbConfig>)
    ensures
        start_layout(cfg).len() > 0,
{
    if let Some(c) = cfg {
        crate::xkb::lemma_layout_names_clean(c.layout@);
        if layout_names(c.layout@).len() > 0 {
            assert(layout_names(c.layout@)[0].len() > 0);
        }
    }
}

/// The state after a restart with `current` active and `saved` the layouts
/// saved per application.
pub open spec fn restart_state(current: Seq<char>, saved: Pairs) -> AppletView {
    AppletView {
        layouts: Map::empty(),
        names: Map::empty(),
        app_layouts: fold_pairs(saved),
        current_app: None,
        current_layout: current,
        last_write_time: None,
    }
}

/// The layout the applet starts with: the configuration's active layout, or
/// `us` when there is none.
pub fn initial_layout(cfg: Option<XkbConfig>) -> (r: String)
    ensures
        r@ == start_layout(cfg),
        r@.len() > 0,
{
    proof {
        lemma_start_layout_non_empty(cfg);
    }
    let active = match &cfg {
        Some(c) => active_layout(c),
        None => None,
    };
    match active {
        Some(a) => a,
        None => {
            let us = "us";
            proof {
                reveal_strlit("us");
            }
            us.to_owned()
        },
    }
}

/// The configuration to write so that `desired` becomes active: `cfg` with
/// `desired` made active, when `cfg` was read and lists it.
pub fn restored_config(cfg: Option<XkbConfig>, desired: &str) -> (r: Option<XkbConfig>)
    ensures
        match cfg {
            Some(c) => activation(c, desired@, r),
            None => r is None,
        },
{
    match cfg {
        Some(c) => make_layout_active(&c, desired),
        None => None,
    }
}

/// The applet's memory of layouts per window and per application.
pub struct AppletState {
    /// Window key to the layout it had when it lost focus.
    pub layout_map: TextMap,
    /// Window key to its application id, for display.
    pub app_names: TextMap,
    /// Application id to the layout last remembered for one of its windows.
    pub app_layouts: TextMap,
    /// The focused window's key.
    pub current_app: Option<String>,
    /// The active layout as the applet knows it.
    pub current_layout: String,
    /// When the applet last wrote the configuration, in microseconds of a
    /// monotonic clock.
    pub last_write_time: Option<u64>,
}

impl View for AppletState {
    type V = AppletView;

    open spec fn view(&self) -> AppletView {
        AppletView {
            layouts: self.layout_map@,
            names: self.app_names@,
            app_layouts: self.app_layouts@,
            current_app: opt_view(self.current_app),
            current_layout: self.current_layout@,
            last_write_time: self.last_write_time,
        }
    }
}

/// The texts of key-value pairs of strings.
pub open spec fn pair_views(p: Seq<(String, String)>) -> Pairs {
    Seq::new(p.len(), |i: int| (p[i].0@, p[i].1@))
}

impl AppletState {
    /// Nothing remembered, `current_layout` active.
    pub fn new(current_layout: String) -> (s: Self)
        ensures
            s@.layouts == Map::<Seq<char>, Seq<char>>::empty(),
            s@.names == Map::<Seq<char>, Seq<char>>::empty(),
            s@.app_layouts == Map::<Seq<char>, Seq<char>>::empty(),
            s@.current_app is None,
            s@.current_layout == current_layout@,
            s@.last_write_time is None,
    {
        AppletState {
            layout_map: TextMap::new(),
            app_names: TextMap::new(),
            app_layouts: TextMap::new(),
            current_app: None,
            current_layout,
            last_write_time: None,
        }
    }

    /// The start after a restart: `current_layout` active, and the layouts
    /// saved per application (`(app id, layout)` pairs, a later pair for the
    /// same application replacing an earlier one) remembered again.
    pub fn with_saved_layouts(current_layout: String, saved: Vec<(String, String)>) -> (s: Self)
        ensures
            s@ == restart_state(current_layout@, pair_views(saved@)),
    {
        let mut app_layouts = TextMap::new();
        let n = saved.len();
        let mut i: usize = 0;
        while i < n
            invariant
                n == saved@.len(),
                i <= n,
                app_layouts@ == fold_pairs(pair_views(saved@).take(i as int)),
            decreases n - i,
        {
            let (app, layout) = &saved[i];
            app_layouts.insert(app.clone(), layout.clone());
            assert(pair_views(saved@).take(i + 1).drop_last() =~= pair_views(saved@).take(
                i as int,
            ));
            i = i + 1;
        }
        assert(pair_views(saved@).take(n as int) =~= pair_views(saved@));
        AppletState {
            layout_map: TextMap::new(),
            app_names: TextMap::new(),
            app_layouts,
            current_app: None,
            current_layout,
            last_write_time: None,
        }
    }

    /// What to save so that a restart remembers the same layouts per
    /// application: the `(app id, layout)` pairs, in ascending order of app id.
    pub fn saved_layouts(&self) -> (r: Vec<(String, String)>)
        ensures
            keys_ascending(pair_views(r@)),
            map_of(pair_views(r@)) == self@.app_layouts,
            fold_pairs(pair_views(r@)) == self@.app_layouts,
    {
        let entries = self.app_layouts.entries();
        let mut r: Vec<(String, String)> = Vec::new();
        let n = entries.len();
        let mut i: usize = 0;
        while i < n
            invariant
                n == entries@.len() == self.app_layouts.pairs().len(),
                i <= n,
                forall|k: int|
                    0 <= k < entries@.len() ==> (#[trigger] entries@[k]).0@
                        == self.app_layouts.pairs()[k].0 && entries@[k].1@
                        == self.app_layouts.pairs()[k].1,
                pair_views(r@) == self.app_layouts.pairs().take(i as int),
            decreases n - i,
        {
            let entry = &entries[i];
            assert(entries@[i as int].0@ == self.app_layouts.pairs()[i as int].0);
            let ghost prev = r@;
            let pair = (entry.0.clone(), entry.1.clone());
            assert(pair.0@ == self.app_layouts.pairs()[i as int].0);
            assert(pair.1@ == self.app_layouts.pairs()[i as int].1);
            r.push(pair);
            assert(r@ == prev.push(pair));
            assert(pair_views(r@) =~= pair_views(prev).push((pair.0@, pair.1@)));
            assert(self.app_layouts.pairs().take(i + 1) =~= self.app_layouts.pairs().take(
                i as int,
            ).push(self.app_layouts.pairs()[i as int]));
            assert(pair_views(r@) =~= self.app_layouts.pairs().take(i + 1));
            i = i + 1;
        }
        assert(self.app_layouts.pairs().take(n as int) =~= self.app_layouts.pairs());
        proof {
            lemma_fold_pairs_ascending(self.app_layouts.pairs());
        }
        r
    }

    /// Remembers `layout` for window `window` and for its application.
    fn remember(&mut self, window: &String, layout: &String)
        ensures
            final(self)@ == remember(old(self)@, window@, layout@),
    {
        let ghost v = self@;
        self.layout_map.insert(window.clone(), layout.clone());
        match self.app_names.get(window.as_str()) {
            Some(app) => {
                self.app_layouts.insert(app, layout.clone());
            },
            None => {},
        }
        assert(self@ == remember(v, window@, layout@));
    }

    /// Window `identifier` of application `app_id` gained focus. Returns the
    /// layout to restore for it, if any.
    pub fn toplevel_focused(&mut self, app_id: String, identifier: String) -> (r: Option<String>)
        ensures
            final(self)@ == focus_state(old(self)@, app_id@, identifier@),
            opt_view(r) == focus_restore(old(self)@, app_id@, identifier@),
    {
        let ghost v = self@;
        self.app_names.insert(identifier.clone(), app_id.clone());
        let outgoing = self.current_app.clone();
        match &outgoing {
            Some(old_app) => {
                let layout = self.current_layout.clone();
                self.remember(old_app, &layout);
            },
            None => {},
        }
        let desired = match self.layout_map.get(identifier.as_str()) {
            Some(d) => Some(d),
            None => self.app_layouts.get(app_id.as_str()),
        };
        self.current_app = Some(identifier);
        assert(self@ == focus_state(v, app_id@, self@.current_app->0));
        match desired {
            Some(d) => {
                if d == self.current_layout {
                    None
                } else {
                    Some(d)
                }
            },
            None => None,
        }
    }

    /// The applet wrote `desired` as the active layout at time `now`.
    pub fn layout_restored(&mut self, desired: String, now: u64)
        ensures
            final(self)@ == restored_state(old(self)@, desired@, now),
    {
        self.current_layout = desired;
        self.last_write_time = Some(now);
    }

    /// Window `identifier` closed.
    pub fn toplevel_closed(&mut self, identifier: &str)
        ensures
            final(self)@ == closed_state(old(self)@, identifier@),
    {
        self.layout_map.remove(identifier);
        self.app_names.remove(identifier);
    }

    /// A poll at time `now` should read the configuration.
    pub fn poll_due(&self, now: u64) -> (r: bool)
        ensures
            r == poll_due_at(self@, now),
    {
        match self.last_write_time {
            Some(t) => {
                let since = if now <= t {
                    0
                } else {
                    now - t
                };
                since >= WRITE_COOLDOWN_MICROS
            },
            None => true,
        }
    }

    /// A poll read `cfg` (nothing when the read failed).
    pub fn layout_polled(&mut self, cfg: Option<XkbConfig>)
        ensures
            final(self)@ == observed_state(old(self)@, active_of(cfg)),
    {
        let active = match &cfg {
            Some(c) => active_layout(c),
            None => None,
        };
        if let Some(a) = active {
            if !(a == self.current_layout) {
                self.current_layout = a.clone();
                let focused = self.current_app.clone();
                match &focused {
                    Some(app) => {
                        self.remember(app, &a);
                    },
                    None => {},
                }
            }
        }
    }
}

/// The name shown for window `key`: its application id, or `?` when unknown.
pub open spec fn display_name(names: Map<Seq<char>, Seq<char>>, key: Seq<char>) -> Seq<char> {
    if names.contains_key(key) {
        names[key]
    } else {
        seq!['?']
    }
}

/// One line of the popup: a window's application and its remembered layout.
#[derive(Debug, Clone)]
pub struct PopupRow {
    pub name: String,
    pub layout: String,
}

impl AppletState {
    /// The label of the panel button: the current layout in upper case.
    pub fn panel_label(&self) -> (r: String)
        ensures
            r@ == uppercase(self@.current_layout),
    {
        to_uppercase(self.current_layout.as_str())
    }

    /// The popup's lines, one per remembered window, in ascending order of
    /// window key: the application name and the layout in upper case.
    pub fn popup_rows(&self) -> (rows: Vec<PopupRow>)
        ensures
            rows@.len() == self.layout_map.pairs().len(),
            keys_ascending(self.layout_map.pairs()),
            map_of(self.layout_map.pairs()) == self@.layouts,
            forall|i: int|
                0 <= i < rows@.len() ==> {
                    &&& (#[trigger] rows@[i]).name@ == display_name(
                        self@.names,
                        self.layout_map.pairs()[i].0,
                    )
                    &&& rows@[i].layout@ == uppercase(self.layout_map.pairs()[i].1)
                },
    {
        let entries = self.layout_map.entries();
        let question = "?";
        proof {
            reveal_strlit("?");
        }
        let mut rows: Vec<PopupRow> = Vec::new();
        let n = entries.len();
        let mut i: usize = 0;
        while i < n
            invariant
                n == entries@.len() == self.layout_map.pairs().len(),
                i <= n,
                rows@.len() == i,
                question@ == seq!['?'],
                forall|k: int|
                    0 <= k < entries@.len() ==> (#[trigger] entries@[k]).0@
                        == self.layout_map.pairs()[k].0 && entries@[k].1@
                        == self.layout_map.pairs()[k].1,
                forall|k: int|
                    0 <= k < i ==> {
                        &&& (#[trigger] rows@[k]).name@ == display_name(
                            self@.names,
                            self.layout_map.pairs()[k].0,
                        )
                        &&& rows@[k].layout@ == uppercase(self.layout_map.pairs()[k].1)
                    },
            decreases n - i,
        {
            let (identifier, layout) = &entries[i];
            assert(entries@[i as int].0@ == self.layout_map.pairs()[i as int].0);
            let name = match self.app_names.get(identifier.as_str()) {
                Some(n) => n,
                None => question.to_owned(),
            };
            let upper = to_uppercase(layout.as_str());
            rows.push(PopupRow { name, layout: upper });
            i = i + 1;
        }
        rows
    }
}

/// A window that loses focus gets its layout back when it regains focus:
/// after window `a` hands focus to window `b` and the layout changes to
/// `later` there, focusing `a` again asks to restore the layout `a` had.
pub proof fn law_window_gets_its_layout_back(
    v: AppletView,
    a: Seq<char>,
    a_app: Seq<char>,
    b: Seq<char>,
    b_app: Seq<char>,
    later: Seq<char>,
)
    requires
        v.current_app == Some(a),
        a != b,
    ensures
        focus_state(v, b_app, b).layouts[a] == v.current_layout,
        focus_restore(observed_state(focus_state(v, b_app, b), Some(later)), a_app, a) == (if later
            == v.current_layout {
            None
        } else {
            Some(v.current_layout)
        }),
{
    let v1 = focus_state(v, b_app, b);
    let v2 = observed_state(v1, Some(later));
    let v3 = focus_state(v2, a_app, a);
    assert(v1.layouts[a] == v.current_layout);
    if later != v.current_layout {
        assert(v2.layouts[a] == v.current_layout);
        assert(v3.layouts[a] == v.current_layout);
    } else {
        assert(v3.layouts[a] == v.current_layout);
    }
}

/// Focusing the window that already has focus restores nothing.
pub proof fn law_refocus_restores_nothing(v: AppletView, a: Seq<char>, a_app: Seq<char>)
    requires
        v.current_app == Some(a),
    ensures
        focus_restore(v, a_app, a) is None,
{
}

/// A closed window is forgotten: nothing is remembered for the window itself,
/// and when a window of that key later gains focus, only what its application
/// remembers is restored.
pub proof fn law_closed_window_is_forgotten(
    v: AppletView,
    id: Seq<char>,
    app_id: Seq<char>,
)
    requires
        v.current_app != Some(id),
    ensures
        !closed_state(v, id).layouts.contains_key(id),
        !closed_state(v, id).names.contains_key(id),
        focus_restore(closed_state(v, id), app_id, id) == ({
            let w = focus_state(closed_state(v, id), app_id, id);
            if w.app_layouts.contains_key(app_id) && w.app_layouts[app_id] != v.current_layout {
                Some(w.app_layouts[app_id])
            } else {
                None
            }
        }),
{
}

/// After the applet writes a configuration that makes `desired` active, a
/// poll within the cooldown does not read, and a poll that reads that
/// configuration back changes nothing.
pub proof fn law_own_write_is_not_mistaken(
    v: AppletView,
    cfg: XkbConfig,
    desired: Seq<char>,
    written: XkbConfig,
    now: u64,
    later: u64,
)
    requires
        activation(cfg, desired, Some(written)),
    ensures
        now <= later < now + WRITE_COOLDOWN_MICROS ==> !poll_due_at(
            restored_state(v, desired, now),
            later,
        ),
        observed_state(restored_state(v, desired, now), active_of(Some(written)))
            == restored_state(v, desired, now),
{
    crate::xkb::lemma_activation_puts_target_first(cfg, desired, written);
}

/// Layouts remembered per application survive a restart: starting from what
/// `saved_layouts` gave, the applet remembers the same layouts per
/// application, and a window of an application gets the layout saved for it.
pub proof fn law_saved_layouts_survive_restart(
    v: AppletView,
    saved: Pairs,
    current: Seq<char>,
    app_id: Seq<char>,
    id: Seq<char>,
)
    requires
        keys_ascending(saved),
        map_of(saved) == v.app_layouts,
    ensures
        restart_state(current, saved).app_layouts == v.app_layouts,
        focus_restore(restart_state(current, saved), app_id, id) == (if v.app_layouts.contains_key(
            app_id,
        ) && v.app_layouts[app_id] != current {
            Some(v.app_layouts[app_id])
        } else {
            None
        }),
{
    lemma_fold_pairs_ascending(saved);
}

/// The current layout and every remembered layout are not empty.
pub open spec fn layouts_non_empty(v: AppletView) -> bool {
    &&& v.current_layout.len() > 0
    &&& forall|k: Seq<char>| #[trigger] v.layouts.contains_key(k) ==> v.layouts[k].len() > 0
    &&& forall|k: Seq<char>| #[trigger] v.app_layouts.contains_key(k) ==> v.app_layouts[k].len() > 0
}

/// Every saved layout is not empty.
pub open spec fn saved_non_empty(saved: Pairs) -> bool {
    forall|i: int| 0 <= i < saved.len() ==> (#[trigger] saved[i]).1.len() > 0
}

proof fn lemma_fold_pairs_non_empty(saved: Pairs)
    requires
        saved_non_empty(saved),
    ensures
        forall|k: Seq<char>| #[trigger] fold_pairs(saved).contains_key(k) ==> fold_pairs(saved)[k].len() > 0,
    decreases saved.len(),
{
    if saved.len() > 0 {
        let init = saved.drop_last();
        assert(saved_non_empty(init)) by {
            assert forall|i: int| 0 <= i < init.len() implies (#[trigger] init[i]).1.len() > 0 by {
                assert(init[i] == saved[i]);
            }
        }
        lemma_fold_pairs_non_empty(init);
        assert(saved[saved.len() - 1].1.len() > 0);
        let m = fold_pairs(saved);
        assert(m == fold_pairs(init).insert(saved.last().0, saved.last().1));
        assert forall|k: Seq<char>| #[trigger] m.contains_key(k) implies m[k].len() > 0 by {
            if k != saved.last().0 {
                assert(fold_pairs(init).contains_key(k));
            }
        }
    }
}

/// The applet starts with no empty layout: the start layout is never empty,
/// and what it takes back from the saved layouts is not, when nothing empty
/// was saved.
pub proof fn law_start_is_non_empty(cfg: Option<XkbConfig>, saved: Pairs)
    requires
        saved_non_empty(saved),
    ensures
        layouts_non_empty(restart_state(start_layout(cfg), saved)),
{
    lemma_start_layout_non_empty(cfg);
    lemma_fold_pairs_non_empty(saved);
}

/// No step makes the current layout or a remembered layout empty: focusing a
/// window, writing the layout that focusing asked to restore, a poll, and a
/// close each keep every layout non-empty.
pub proof fn law_layouts_never_empty(
    v: AppletView,
    app_id: Seq<char>,
    id: Seq<char>,
    cfg: Option<XkbConfig>,
    now: u64,
    closed: Seq<char>,
)
    requires
        layouts_non_empty(v),
    ensures
        layouts_non_empty(focus_state(v, app_id, id)),
        focus_restore(v, app_id, id) matches Some(d) ==> d.len() > 0 && layouts_non_empty(
            restored_state(focus_state(v, app_id, id), d, now),
        ),
        layouts_non_empty(observed_state(v, active_of(cfg))),
        layouts_non_empty(closed_state(v, closed)),
{
    let w = focus_state(v, app_id, id);
    assert(layouts_non_empty(w));
    if let Some(c) = cfg {
        crate::xkb::lemma_layout_names_clean(c.layout@);
        if layout_names(c.layout@).len() > 0 {
            assert(layout_names(c.layout@)[0].len() > 0);
        }
    }
    assert(layouts_non_empty(observed_state(v, active_of(cfg))));
    assert(layouts_non_empty(closed_state(v, closed)));
}

/// A poll that finds a layout switched outside the applet makes it the
/// current layout and remembers it at once for the focused window, and for
/// that window's application when it is known; other windows and
/// applications keep what they had.
pub proof fn law_poll_remembers_switch(v: AppletView, a: Seq<char>, w: Seq<char>)
    requires
        a != v.current_layout,
        v.current_app == Some(w),
    ensures
        observed_state(v, Some(a)).current_layout == a,
        observed_state(v, Some(a)).layouts.contains_key(w),
        observed_state(v, Some(a)).layouts[w] == a,
        v.names.contains_key(w) ==> observed_state(v, Some(a)).app_layouts.contains_key(v.names[w])
            && observed_state(v, Some(a)).app_layouts[v.names[w]] == a,
        forall|k: Seq<char>|
            k != w && v.layouts.contains_key(k) ==> #[trigger] observed_state(
                v,
                Some(a),
            ).layouts.contains_key(k) && observed_state(v, Some(a)).layouts[k] == v.layouts[k],
        observed_state(v, Some(a)).current_app == v.current_app,
        observed_state(v, Some(a)).names == v.names,
{
}

/// A poll that finds the current layout, or finds none, changes nothing.
pub proof fn law_poll_without_switch(v: AppletView, active: Option<Seq<char>>)
    requires
        active matches Some(a) ==> a == v.current_layout,
    ensures
        observed_state(v, active) == v,
{
}

/// Polls are skipped only during the cooldown after the applet's own write:
/// with no write yet every poll reads, and after a write at time `t` every
/// poll from `t + WRITE_COOLDOWN_MICROS` on reads, however late.
pub proof fn law_polls_resume_after_cooldown(v: AppletView, d: Seq<char>, t: u64, later: u64)
    requires
        later >= t + WRITE_COOLDOWN_MICROS,
    ensures
        poll_due_at(restored_state(v, d, t), later),
        v.last_write_time is None ==> poll_due_at(v, later),
{
}

/// Closing a window forgets it, the focused one included: its layout and its
/// name are gone, and every other window keeps its entries.
pub proof fn law_close_forgets_any_window(v: AppletView, id: Seq<char>)
    ensures
        !closed_state(v, id).layouts.contains_key(id),
        !closed_state(v, id).names.contains_key(id),
        forall|k: Seq<char>|
            k != id ==> (#[trigger] closed_state(v, id).layouts.contains_key(k)
                <==> v.layouts.contains_key(k)),
        forall|k: Seq<char>|
            k != id && v.layouts.contains_key(k) ==> #[trigger] closed_state(v, id).layouts[k]
                == v.layouts[k],
        forall|k: Seq<char>|
            k != id ==> (#[trigger] closed_state(v, id).names.contains_key(k)
                <==> v.names.contains_key(k)),
        closed_state(v, id).app_layouts == v.app_layouts,
{
}

/// The applet starts with the configuration's active layout whenever the
/// configuration lists a layout at all, and with `us` only when it was not
/// read or lists none.
pub proof fn law_start_layout_is_active_layout(cfg: Option<XkbConfig>)
    ensures
        match cfg {
            Some(c) => if layout_names(c.layout@).len() > 0 {
                start_layout(cfg) == layout_names(c.layout@)[0]
            } else {
                start_layout(cfg) == seq!['u', 's']
            },
            None => start_layout(cfg) == seq!['u', 's'],
        },
{
}

} // verus!
