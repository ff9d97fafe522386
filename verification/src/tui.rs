//! The state of the terminal interface and every decision it takes: the
//! activity log, which models are shown on which page, what is selected,
//! the settings form, the disk-space check before a download, and how
//! download events and keys change the state. Drawing, files, the clock
//! and the download threads are the caller's; they hand in what they found
//! (which models are installed, the free space, the time of day) and carry
//! out what these functions ask for.

use vstd::prelude::*;
use crate::config::Config;
use crate::model::Model;
use crate::text::{chars_lt, chars_of, lemma_text_lt_irreflexive, lemma_text_lt_total, lemma_text_lt_transitive, text_lt, contains_text, decimal, pop_char, push_char, eq_ignore_ascii_case, has_substring, lowercase, push_decimal, push_str, text_eq_ignore_ascii_case, to_lowercase};

verus! {

/// Whether keys edit the search query or drive the menu.
#[derive(Clone, Copy, PartialEq, Eq, Structural)]
pub enum InputMode {
    Normal,
    Search,
}

/// Progress of the download a worker is busy with. (The transfer speed is
/// kept by the caller, beside this record.)
pub struct ActiveDownload {
    pub filename: String,
    pub bytes_downloaded: u64,
    pub total_bytes: u64,
    pub eta_secs: u64,
}

/// Which screen the interface shows.
pub enum AppState {
    /// The model list.
    Menu,
    /// The settings form; `active_field` 0 is the models directory, 1 the
    /// token, 2 "save", 3 "cancel".
    Settings { active_field: usize, models_dir_input: String, hf_token_input: String },
    /// The warning that the selected downloads need more space than is free.
    DiskSpaceWarning { required: u64, available: u64 },
    /// The summary of a finished download queue.
    Finished { completed: usize, failed: usize, message: String },
}

/// What the download and refresh workers report.
pub enum DownloadEvent {
    Start { worker_id: usize, filename: String },
    Progress { worker_id: usize, filename: String, downloaded: u64, total: u64, eta_secs: u64 },
    ModelFinished { worker_id: usize, filename: String, success: bool, error_msg: Option<String> },
    AllComplete { completed: usize, failed: usize },
    RefreshUpdate { idx: usize, size: u64 },
    RefreshFinished { valid: usize, invalid: usize, unknown: usize },
}

/// Maximum number of lines kept in the activity log.
pub const LOG_CAPACITY: usize = 100;

/// Number of page tabs shown at once.
pub const VISIBLE_TABS: usize = 10;

/// The state of the interface.
pub struct App {
    pub models: Vec<Model>,
    pub config: Config,
    /// Position of the highlighted row of the model list.
    pub selected: Option<usize>,
    /// Positions (in `models`) of the models chosen for download.
    pub selected_indices: Vec<usize>,
    pub state: AppState,
    /// Whether a download or refresh task is running.
    pub busy: bool,
    pub input_mode: InputMode,
    pub search_query: String,
    pub filtered_cache: Vec<(usize, Model)>,
    pub filtered_cache_dirty: bool,
    pub logs: Vec<String>,
    /// Log lines not yet appended to the session log file.
    pub pending_log: Vec<String>,
    pub active_tab: usize,
    pub tab_offset: usize,
    pub categories: Vec<String>,
    pub active_downloads: Vec<Option<ActiveDownload>>,
    pub completed_count: usize,
    pub failed_count: usize,
    pub total_to_download: usize,
    pub log_viewer_visible: bool,
    pub log_scroll: usize,
}

/// The texts of a list of strings.
pub open spec fn texts(v: Seq<String>) -> Seq<Seq<char>> {
    v.map_values(|s: String| s@)
}

/// A log line: the time of day in brackets, then the message.
pub open spec fn log_line(ts: Seq<char>, msg: Seq<char>) -> Seq<char> {
    "["@ + ts + "] "@ + msg
}

/// The log after one more line: the oldest line is dropped once there are
/// more than `LOG_CAPACITY`.
pub open spec fn log_after(logs: Seq<Seq<char>>, line: Seq<char>) -> Seq<Seq<char>> {
    let l = logs.push(line);
    if l.len() > LOG_CAPACITY {
        l.drop_first()
    } else {
        l
    }
}

/// Whether the model at position `i` is shown on page `tab`: page 0 shows
/// all models, page 1 the installed ones, page 2 the missing ones, and page
/// `3 + k` those of the `k`-th category (compared ignoring ASCII case; a
/// page past the last category shows all models).
pub open spec fn page_shows(tab: usize, categories: Seq<String>, m: Model, installed: bool) -> bool {
    if tab == 0 {
        true
    } else if tab == 1 {
        installed
    } else if tab == 2 {
        !installed
    } else if tab - 3 < categories.len() {
        eq_ignore_ascii_case(m.category@, categories[tab - 3]@)
    } else {
        true
    }
}

/// Whether a model matches the search query: every model matches an empty
/// query; otherwise its lowercased file name, category or group contains
/// the lowercased query.
pub open spec fn query_matches(query: Seq<char>, m: Model) -> bool {
    query.len() == 0 || has_substring(lowercase(m.filename@), lowercase(query)) || has_substring(
        lowercase(m.category@),
        lowercase(query),
    ) || has_substring(lowercase(m.group@), lowercase(query))
}

/// The models among the first `n` that the page and the query show, with
/// their positions, in catalogue order.
pub open spec fn shown_models(
    models: Seq<Model>,
    installed: Seq<bool>,
    tab: usize,
    categories: Seq<String>,
    query: Seq<char>,
    n: int,
) -> Seq<(usize, Model)>
    decreases n,
{
    if n <= 0 {
        Seq::empty()
    } else if page_shows(tab, categories, models[n - 1], installed[n - 1]) && query_matches(
        query,
        models[n - 1],
    ) {
        shown_models(models, installed, tab, categories, query, n - 1).push(
            ((n - 1) as usize, models[n - 1]),
        )
    } else {
        shown_models(models, installed, tab, categories, query, n - 1)
    }
}

/// Every position in `shown_models` is one of the first `n` models, and
/// the entry holds that model.
pub proof fn lemma_shown_models_positions(
    models: Seq<Model>,
    installed: Seq<bool>,
    tab: usize,
    categories: Seq<String>,
    query: Seq<char>,
    n: int,
)
    requires
        n <= models.len(),
        n <= usize::MAX,
    ensures
        forall|k: int|
            0 <= k < shown_models(models, installed, tab, categories, query, n).len() ==> {
                let e = #[trigger] shown_models(models, installed, tab, categories, query, n)[k];
                &&& (e.0 as int) < n
                &&& e.1 == models[e.0 as int]
            },
    decreases n,
{
    if n > 0 {
        lemma_shown_models_positions(models, installed, tab, categories, query, n - 1);
        let s = shown_models(models, installed, tab, categories, query, n);
        let p = shown_models(models, installed, tab, categories, query, n - 1);
        assert forall|k: int| 0 <= k < s.len() implies (s[k].0 as int) < n && s[k].1 == models[s[k].0 as int] by {
            if k < p.len() {
                assert(s[k] == p[k]);
            }
        }
    }
}

/// The tab offset after `ensure_active_tab_visible`: moved so that the
/// active tab is among the `VISIBLE_TABS` shown, then pulled back so that no
/// empty slot shows past the last page.
pub open spec fn visible_tab_offset(active: usize, offset: usize, total_pages: usize) -> usize {
    let o = if active < offset {
        active
    } else if active >= offset + VISIBLE_TABS {
        if active >= 9 {
            (active - 9) as usize
        } else {
            0
        }
    } else {
        offset
    };
    if o + VISIBLE_TABS > total_pages {
        if total_pages >= VISIBLE_TABS {
            (total_pages - VISIBLE_TABS) as usize
        } else {
            0
        }
    } else {
        o
    }
}

/// `a` and `b` agree on everything but the log and the pending log lines.
pub open spec fn same_but_log(a: App, b: App) -> bool {
    &&& a.models == b.models
    &&& a.config == b.config
    &&& a.selected == b.selected
    &&& a.selected_indices == b.selected_indices
    &&& a.state == b.state
    &&& a.busy == b.busy
    &&& a.input_mode == b.input_mode
    &&& a.search_query == b.search_query
    &&& a.filtered_cache == b.filtered_cache
    &&& a.filtered_cache_dirty == b.filtered_cache_dirty
    &&& a.active_tab == b.active_tab
    &&& a.tab_offset == b.tab_offset
    &&& a.categories == b.categories
    &&& a.active_downloads == b.active_downloads
    &&& a.completed_count == b.completed_count
    &&& a.failed_count == b.failed_count
    &&& a.total_to_download == b.total_to_download
    &&& a.log_viewer_visible == b.log_viewer_visible
    &&& a.log_scroll == b.log_scroll
}

/// Well-formedness: the selection and the cached list only refer to
/// existing models, and the log holds at most `LOG_CAPACITY` lines.
pub open spec fn app_wf(app: App) -> bool {
    &&& forall|k: int| 0 <= k < app.selected_indices@.len() ==> #[trigger] app.selected_indices@[k] < app.models@.len()
    &&& forall|k: int| 0 <= k < app.filtered_cache@.len() ==> #[trigger] app.filtered_cache@[k].0 < app.models@.len()
    &&& app.logs@.len() <= LOG_CAPACITY
    &&& (app.state matches AppState::Settings { active_field, .. } ==> active_field < 4)
}

fn clone_entries(v: &Vec<(usize, Model)>) -> (r: Vec<(usize, Model)>)
    ensures
        r@ == v@,
{
    let mut r: Vec<(usize, Model)> = Vec::new();
    let mut i: usize = 0;
    while i < v.len()
        invariant
            i <= v.len(),
            r@ == v@.take(i as int),
        decreases v.len() - i,
    {
        r.push((v[i].0, v[i].1.clone()));
        assert(v@.take(i + 1) =~= v@.take(i as int).push(v@[i as int]));
        i = i + 1;
    }
    assert(v@.take(v.len() as int) =~= v@);
    r
}

/// What asking for the shown list does: recompute it when marked dirty,
/// otherwise hand back the kept one; nothing else changes.
pub open spec fn filtered_post(old_app: App, new_app: App, installed: Seq<bool>, r: Seq<(usize, Model)>) -> bool {
    &&& old_app.filtered_cache_dirty ==> new_app.filtered_cache@ == shown_models(
        old_app.models@,
        installed,
        old_app.active_tab,
        old_app.categories@,
        old_app.search_query@,
        old_app.models@.len() as int,
    )
    &&& !old_app.filtered_cache_dirty ==> new_app.filtered_cache == old_app.filtered_cache
    &&& new_app == (App { filtered_cache: new_app.filtered_cache, filtered_cache_dirty: false, ..old_app })
    &&& r == new_app.filtered_cache@
}

/// Asking for the shown list twice, with nothing marked dirty in between,
/// gives the same list and leaves the state as the first call left it.
pub proof fn lemma_shown_list_kept(
    a0: App,
    a1: App,
    a2: App,
    installed: Seq<bool>,
    r1: Seq<(usize, Model)>,
    r2: Seq<(usize, Model)>,
)
    requires
        filtered_post(a0, a1, installed, r1),
        filtered_post(a1, a2, installed, r2),
    ensures
        r2 == r1,
        a2 == a1,
{
}

impl App {
    /// Appends "[ts] msg" to the log (dropping the oldest line beyond
    /// `LOG_CAPACITY`) and to the lines awaiting the session log file.
    pub fn add_log(&mut self, ts: &str, msg: &str)
        ensures
            texts(final(self).logs@) == log_after(texts(old(self).logs@), log_line(ts@, msg@)),
            texts(final(self).pending_log@) == texts(old(self).pending_log@).push(log_line(ts@, msg@)),
            same_but_log(*old(self), *final(self)),
            old(self).logs@.len() <= LOG_CAPACITY ==> final(self).logs@.len() <= LOG_CAPACITY,
    {
        let mut line = String::new();
        push_str(&mut line, "[");
        push_str(&mut line, ts);
        push_str(&mut line, "] ");
        push_str(&mut line, msg);
        let copy = line.clone();
        self.logs.push(line);
        if self.logs.len() > LOG_CAPACITY {
            self.logs.remove(0);
        }
        self.pending_log.push(copy);
        proof {
            assert(texts(self.logs@) =~= log_after(texts(old(self).logs@), log_line(ts@, msg@)));
            assert(texts(self.pending_log@) =~= texts(old(self).pending_log@).push(log_line(ts@, msg@)));
        }
    }

    /// Hands out the log lines awaiting the session log file.
    pub fn take_pending_log(&mut self) -> (r: Vec<String>)
        ensures
            r@ == old(self).pending_log@,
            final(self).pending_log@.len() == 0,
            *final(self) == (App { pending_log: final(self).pending_log, ..*old(self) }),
    {
        let mut r: Vec<String> = Vec::new();
        std::mem::swap(&mut r, &mut self.pending_log);
        r
    }

    /// Marks the shown list for recomputation.
    pub fn mark_filtered_dirty(&mut self)
        ensures
            *final(self) == (App { filtered_cache_dirty: true, ..*old(self) }),
    {
        self.filtered_cache_dirty = true;
    }

    /// The models shown on the active page for the search query, with their
    /// positions; `installed[i]` tells whether model `i` is on disk. The list
    /// is recomputed only when marked dirty, and kept for later calls.
    pub fn filtered_models(&mut self, installed: &Vec<bool>) -> (r: Vec<(usize, Model)>)
        requires
            installed@.len() == old(self).models@.len(),
            app_wf(*old(self)),
        ensures
            app_wf(*final(self)),
            filtered_post(*old(self), *final(self), installed@, r@),
    {
        if self.filtered_cache_dirty {
            let q = to_lowercase(self.search_query.as_str());
            let query_empty = self.search_query.as_str().is_empty();
            let n_models = self.models.len();
            let mut list: Vec<(usize, Model)> = Vec::new();
            let mut i: usize = 0;
            while i < self.models.len()
                invariant
                    i <= self.models@.len(),
                    installed@.len() == self.models@.len(),
                    q@ == lowercase(self.search_query@),
                    query_empty == (self.search_query@.len() == 0),
                    list@ == shown_models(
                        self.models@,
                        installed@,
                        self.active_tab,
                        self.categories@,
                        self.search_query@,
                        i as int,
                    ),
                decreases self.models@.len() - i,
            {
                let m = &self.models[i];
                let on_page = if self.active_tab == 0 {
                    true
                } else if self.active_tab == 1 {
                    installed[i]
                } else if self.active_tab == 2 {
                    !installed[i]
                } else if self.active_tab - 3 < self.categories.len() {
                    text_eq_ignore_ascii_case(
                        m.category.as_str(),
                        self.categories[self.active_tab - 3].as_str(),
                    )
                } else {
                    true
                };
                let wanted = on_page && (query_empty || {
                    let f = to_lowercase(m.filename.as_str());
                    let c = to_lowercase(m.category.as_str());
                    let g = to_lowercase(m.group.as_str());
                    contains_text(f.as_str(), q.as_str()) || contains_text(c.as_str(), q.as_str())
                        || contains_text(g.as_str(), q.as_str())
                });
                if wanted {
                    list.push((i, m.clone()));
                }
                i = i + 1;
            }
            proof {
                lemma_shown_models_positions(
                    self.models@,
                    installed@,
                    self.active_tab,
                    self.categories@,
                    self.search_query@,
                    self.models@.len() as int,
                );
            }
            self.filtered_cache = list;
            self.filtered_cache_dirty = false;
        }
        clone_entries(&self.filtered_cache)
    }

    /// Moves the tab offset so that the active tab is shown
    /// (`visible_tab_offset`).
    pub fn ensure_active_tab_visible(&mut self, total_pages: usize)
        requires
            old(self).tab_offset + VISIBLE_TABS <= usize::MAX,
            old(self).active_tab >= old(self).tab_offset + VISIBLE_TABS ==> old(self).active_tab
                < usize::MAX,
        ensures
            *final(self) == (App {
                tab_offset: visible_tab_offset(old(self).active_tab, old(self).tab_offset, total_pages),
                ..*old(self)
            }),
    {
        if self.active_tab < self.tab_offset {
            self.tab_offset = self.active_tab;
        } else if self.active_tab >= self.tab_offset + VISIBLE_TABS {
            self.tab_offset = if self.active_tab >= 9 {
                self.active_tab - 9
            } else {
                0
            };
        }
        if self.tab_offset + VISIBLE_TABS > total_pages {
            self.tab_offset = if total_pages >= VISIBLE_TABS {
                total_pages - VISIBLE_TABS
            } else {
                0
            };
        }
    }
}


/// Position of the first occurrence of `x` in `s`, or `s.len()` when absent.
pub open spec fn first_index(s: Seq<usize>, x: usize) -> int
    decreases s.len(),
{
    if s.len() == 0 {
        0
    } else if s[0] == x {
        0
    } else {
        1 + first_index(s.drop_first(), x)
    }
}

proof fn lemma_first_index(s: Seq<usize>, x: usize)
    ensures
        0 <= first_index(s, x) <= s.len(),
        first_index(s, x) < s.len() <==> s.contains(x),
        first_index(s, x) < s.len() ==> s[first_index(s, x)] == x,
        forall|k: int| 0 <= k < first_index(s, x) ==> s[k] != x,
    decreases s.len(),
{
    if s.len() > 0 && s[0] != x {
        lemma_first_index(s.drop_first(), x);
        if s.contains(x) {
            let k = choose|k: int| 0 <= k < s.len() && s[k] == x;
            assert(s.drop_first()[k - 1] == x);
        }
        assert forall|k: int| 0 <= k < first_index(s, x) implies s[k] != x by {
            if k > 0 {
                assert(s[k] == s.drop_first()[k - 1]);
            }
        }
    } else if s.len() > 0 {
        assert(s.contains(x)) by {
            assert(s[0] == x);
        }
    }
}

/// The selection after toggling model `orig`: removed (its first
/// occurrence) when selected, else appended.
pub open spec fn toggled(sel: Seq<usize>, orig: usize) -> Seq<usize> {
    if sel.contains(orig) {
        sel.remove(first_index(sel, orig))
    } else {
        sel.push(orig)
    }
}

/// Positions of the missing models among the first `n` that belong to
/// `group` (every group when `None`).
pub open spec fn missing_in_group(
    models: Seq<Model>,
    installed: Seq<bool>,
    group: Option<Seq<char>>,
    n: int,
) -> Seq<usize>
    decreases n,
{
    if n <= 0 {
        Seq::empty()
    } else if !installed[n - 1] && (match group {
        Some(g) => models[n - 1].group@ == g,
        None => true,
    }) {
        missing_in_group(models, installed, group, n - 1).push((n - 1) as usize)
    } else {
        missing_in_group(models, installed, group, n - 1)
    }
}

/// The selection after adding, in list order, each listed model that is
/// missing and not yet selected.
pub open spec fn with_missing_added(sel: Seq<usize>, list: Seq<(usize, Model)>, installed: Seq<bool>) -> Seq<usize>
    decreases list.len(),
{
    if list.len() == 0 {
        sel
    } else if !installed[list[0].0 as int] && !sel.contains(list[0].0) {
        with_missing_added(sel.push(list[0].0), list.drop_first(), installed)
    } else {
        with_missing_added(sel, list.drop_first(), installed)
    }
}

/// Bytes still to download for the selection: the catalogue sizes of the
/// selected models that are not installed.
pub open spec fn space_needed(models: Seq<Model>, installed: Seq<bool>, sel: Seq<usize>) -> nat
    decreases sel.len(),
{
    if sel.len() == 0 {
        0
    } else if !installed[sel.last() as int] {
        space_needed(models, installed, sel.drop_last()) + (models[sel.last() as int].size_bytes as nat)
    } else {
        space_needed(models, installed, sel.drop_last())
    }
}

/// The selected models with their positions, in selection order.
pub open spec fn selected_models(models: Seq<Model>, sel: Seq<usize>) -> Seq<(usize, Model)> {
    sel.map_values(|i: usize| (i, models[i as int]))
}

/// The models a size refresh covers, with their positions: the selected
/// ones, or all models when nothing is selected, skipping positions past
/// the end of the catalogue.
pub open spec fn refresh_list(models: Seq<Model>, sel: Seq<usize>, n: int) -> Seq<(usize, Model)>
    decreases n,
{
    if n <= 0 {
        Seq::empty()
    } else {
        let i: usize = if sel.len() == 0 {
            (n - 1) as usize
        } else {
            sel[n - 1]
        };
        if (i as int) < models.len() {
            refresh_list(models, sel, n - 1).push((i, models[i as int]))
        } else {
            refresh_list(models, sel, n - 1)
        }
    }
}


/// The shown list after it is brought up to date.
pub open spec fn refreshed_view(app: App, installed: Seq<bool>) -> Seq<(usize, Model)> {
    if app.filtered_cache_dirty {
        shown_models(
            app.models@,
            installed,
            app.active_tab,
            app.categories@,
            app.search_query@,
            app.models@.len() as int,
        )
    } else {
        app.filtered_cache@
    }
}

/// How `toggle_selection` changes the state.
pub open spec fn toggle_post(old_app: App, new_app: App, installed: Seq<bool>, ts: Seq<char>) -> bool {
    let view = App {
        filtered_cache: new_app.filtered_cache,
        filtered_cache_dirty: false,
        ..old_app
    };
    &&& new_app.filtered_cache@ == refreshed_view(old_app, installed)
    &&& !new_app.filtered_cache_dirty
    &&& match old_app.selected {
        Some(sel) => if sel < new_app.filtered_cache@.len() {
            let orig = new_app.filtered_cache@[sel as int].0;
            let name = old_app.models@[orig as int].filename@;
            &&& new_app.selected_indices@ == toggled(old_app.selected_indices@, orig)
            &&& only_logged(
                App { selected_indices: new_app.selected_indices, ..view },
                new_app,
                ts,
                if old_app.selected_indices@.contains(orig) {
                    "Deselected: "@ + name
                } else {
                    "Selected: "@ + name
                },
            )
        } else {
            new_app == view
        },
        None => new_app == view,
    }
}

/// Toggling the same position twice gives back a selection without
/// repeats: exactly when the position was not selected, and up to order
/// (the position moves to the end) when it was.
pub proof fn lemma_toggled_twice(sel: Seq<usize>, orig: usize)
    requires
        sel.no_duplicates(),
    ensures
        toggled(toggled(sel, orig), orig).to_set() == sel.to_set(),
        toggled(toggled(sel, orig), orig).len() == sel.len(),
        toggled(toggled(sel, orig), orig).no_duplicates(),
        !sel.contains(orig) ==> toggled(toggled(sel, orig), orig) == sel,
{
    lemma_first_index(sel, orig);
    if sel.contains(orig) {
        let i = first_index(sel, orig);
        let t1 = sel.remove(i);
        assert(!t1.contains(orig)) by {
            if t1.contains(orig) {
                let k = choose|k: int| 0 <= k < t1.len() && t1[k] == orig;
                if k < i {
                    assert(sel[k] == orig);
                } else {
                    assert(sel[k + 1] == orig && sel[i] == orig);
                }
            }
        }
        let t2 = t1.push(orig);
        assert(toggled(t1, orig) == t2);
        assert forall|x: usize| t2.contains(x) <==> sel.contains(x) by {
            if sel.contains(x) && x != orig {
                let k = choose|k: int| 0 <= k < sel.len() && sel[k] == x;
                if k < i {
                    assert(t2[k] == x);
                } else {
                    assert(k != i);
                    assert(t2[k - 1] == x);
                }
            }
            if t2.contains(x) && x != orig {
                let k = choose|k: int| 0 <= k < t2.len() && t2[k] == x;
                if k < i {
                    assert(sel[k] == x);
                } else {
                    assert(sel[k + 1] == x);
                }
            }
            if x == orig {
                assert(t2[t2.len() - 1] == orig);
            }
        }
        assert(t2.to_set() =~= sel.to_set());
        assert forall|a: int, b: int| 0 <= a < b < t2.len() implies t2[a] != t2[b] by {
            if b == t2.len() - 1 {
                assert(t1[a] == t2[a]);
            } else {
                let sa = if a < i { a } else { a + 1 };
                let sb = if b < i { b } else { b + 1 };
                assert(t2[a] == sel[sa] && t2[b] == sel[sb]);
            }
        }
    } else {
        let t1 = sel.push(orig);
        lemma_first_index(t1, orig);
        let j = first_index(t1, orig);
        assert(t1[sel.len() as int] == orig);
        assert(t1.contains(orig));
        if j < sel.len() {
            assert(sel[j] == orig);
        }
        assert(j == sel.len());
        assert(t1.remove(j) =~= sel);
    }
}

/// Calling `toggle_selection` twice with the same highlighted row and the
/// same installed flags gives back the selection: exactly when that model
/// was not selected, and as a set of positions when it was.
pub proof fn lemma_toggle_selection_twice(
    a0: App,
    a1: App,
    a2: App,
    installed: Seq<bool>,
    ts1: Seq<char>,
    ts2: Seq<char>,
)
    requires
        toggle_post(a0, a1, installed, ts1),
        toggle_post(a1, a2, installed, ts2),
        a0.selected_indices@.no_duplicates(),
    ensures
        a2.selected_indices@.to_set() == a0.selected_indices@.to_set(),
        a2.selected_indices@.len() == a0.selected_indices@.len(),
        (a0.selected matches Some(s) && s < a1.filtered_cache@.len()
            && !a0.selected_indices@.contains(a1.filtered_cache@[s as int].0))
            ==> a2.selected_indices@ == a0.selected_indices@,
{
    assert(a2.filtered_cache@ == a1.filtered_cache@);
    match a0.selected {
        Some(s) => {
            if s < a1.filtered_cache@.len() {
                lemma_toggled_twice(a0.selected_indices@, a1.filtered_cache@[s as int].0);
            }
        },
        None => {},
    }
}

/// Every position in the group selection is below `n`, and no position
/// occurs twice.
pub proof fn lemma_group_selection_distinct(
    models: Seq<Model>,
    installed: Seq<bool>,
    group: Option<Seq<char>>,
    n: int,
)
    requires
        n <= usize::MAX,
    ensures
        missing_in_group(models, installed, group, n).no_duplicates(),
        forall|k: int|
            0 <= k < missing_in_group(models, installed, group, n).len() ==> (#[trigger] missing_in_group(
                models,
                installed,
                group,
                n,
            )[k] as int) < n,
    decreases n,
{
    if n > 0 {
        lemma_group_selection_distinct(models, installed, group, n - 1);
        let prev = missing_in_group(models, installed, group, n - 1);
        let cur = missing_in_group(models, installed, group, n);
        if cur.len() > prev.len() {
            assert forall|a: int, b: int| 0 <= a < b < cur.len() implies cur[a] != cur[b] by {
                assert(cur[a] == prev[a]);
                if b < cur.len() - 1 {
                    assert(cur[b] == prev[b]);
                }
            }
        }
    }
}

/// Adding the missing models of a list never repeats a position that was
/// not repeated before.
pub proof fn lemma_missing_added_distinct(sel: Seq<usize>, list: Seq<(usize, Model)>, installed: Seq<bool>)
    requires
        sel.no_duplicates(),
    ensures
        with_missing_added(sel, list, installed).no_duplicates(),
    decreases list.len(),
{
    if list.len() > 0 {
        if !installed[list[0].0 as int] && !sel.contains(list[0].0) {
            let p = sel.push(list[0].0);
            assert forall|a: int, b: int| 0 <= a < b < p.len() implies p[a] != p[b] by {
                if b == p.len() - 1 {
                    assert(sel[a] == p[a]);
                }
            }
            lemma_missing_added_distinct(p, list.drop_first(), installed);
        } else {
            lemma_missing_added_distinct(sel, list.drop_first(), installed);
        }
    }
}

/// The selection never lists a model twice: toggling a row, selecting the
/// missing models of the view and selecting a group all keep it free of
/// repeats.
pub proof fn lemma_selection_stays_distinct(
    a0: App,
    a1: App,
    installed: Seq<bool>,
    ts: Seq<char>,
)
    requires
        a0.selected_indices@.no_duplicates(),
    ensures
        toggle_post(a0, a1, installed, ts) ==> a1.selected_indices@.no_duplicates(),
        select_missing_post(a0, a1, installed, ts) ==> a1.selected_indices@.no_duplicates(),
{
    if toggle_post(a0, a1, installed, ts) {
        match a0.selected {
            Some(s) => {
                if s < a1.filtered_cache@.len() {
                    let orig = a1.filtered_cache@[s as int].0;
                    lemma_toggled_twice(a0.selected_indices@, orig);
                    lemma_first_index(a0.selected_indices@, orig);
                    if !a0.selected_indices@.contains(orig) {
                        let p = a0.selected_indices@.push(orig);
                        assert forall|a: int, b: int| 0 <= a < b < p.len() implies p[a] != p[b] by {
                            if b == p.len() - 1 {
                                assert(a0.selected_indices@[a] == p[a]);
                            }
                        }
                    } else {
                        let i = first_index(a0.selected_indices@, orig);
                        let t = a0.selected_indices@.remove(i);
                        assert forall|a: int, b: int| 0 <= a < b < t.len() implies t[a] != t[b] by {
                            let sa = if a < i { a } else { a + 1 };
                            let sb = if b < i { b } else { b + 1 };
                            assert(t[a] == a0.selected_indices@[sa] && t[b] == a0.selected_indices@[sb]);
                        }
                    }
                }
            },
            None => {},
        }
    }
    if select_missing_post(a0, a1, installed, ts) {
        lemma_missing_added_distinct(a0.selected_indices@, a1.filtered_cache@, installed);
    }
}

/// How `select_all_missing_in_view` changes the state.
pub open spec fn select_missing_post(old_app: App, new_app: App, installed: Seq<bool>, ts: Seq<char>) -> bool {
    &&& new_app.filtered_cache@ == refreshed_view(old_app, installed)
    &&& !new_app.filtered_cache_dirty
    &&& new_app.selected_indices@ == with_missing_added(
        old_app.selected_indices@,
        new_app.filtered_cache@,
        installed,
    )
    &&& only_logged(
        App {
            filtered_cache: new_app.filtered_cache,
            filtered_cache_dirty: false,
            selected_indices: new_app.selected_indices,
            ..old_app
        },
        new_app,
        ts,
        "Selected "@ + decimal((new_app.selected_indices@.len() - old_app.selected_indices@.len()) as nat)
            + " missing models in current view."@,
    )
}

/// Whether `x` occurs in `v`.
fn holds_index(v: &Vec<usize>, x: usize) -> (r: bool)
    ensures
        r == v@.contains(x),
{
    let mut k: usize = 0;
    while k < v.len()
        invariant
            k <= v@.len(),
            forall|j: int| 0 <= j < k ==> v@[j] != x,
        decreases v@.len() - k,
    {
        if v[k] == x {
            assert(v@[k as int] == x);
            return true;
        }
        k = k + 1;
    }
    false
}

impl App {
    /// Toggles the selection of the highlighted model of the shown list
    /// (`toggled`), logging "Selected: <file>" or "Deselected: <file>".
    /// Nothing happens when no shown row is highlighted.
    pub fn toggle_selection(&mut self, installed: &Vec<bool>, ts: &str)
        requires
            app_wf(*old(self)),
            installed@.len() == old(self).models@.len(),
        ensures
            app_wf(*final(self)),
            toggle_post(*old(self), *final(self), installed@, ts@),
    {
        let n_models = self.models.len();
        let filtered = self.filtered_models(installed);
        proof {
            lemma_shown_models_positions(
                self.models@,
                installed@,
                self.active_tab,
                self.categories@,
                self.search_query@,
                self.models@.len() as int,
            );
        }
        if let Some(sel) = self.selected {
            if sel < filtered.len() {
                let orig = filtered[sel].0;
                let ghost before = self.selected_indices@;
                proof {
                    lemma_first_index(before, orig);
                }
                let mut pos: usize = 0;
                while pos < self.selected_indices.len() && self.selected_indices[pos] != orig
                    invariant
                        self.selected_indices@ == before,
                        pos <= before.len(),
                        forall|k: int| 0 <= k < pos ==> before[k] != orig,
                        pos <= first_index(before, orig),
                    decreases before.len() - pos,
                {
                    proof {
                        lemma_first_index(before, orig);
                    }
                    pos = pos + 1;
                }
                let mut msg = String::new();
                if pos < self.selected_indices.len() {
                    self.selected_indices.remove(pos);
                    push_str(&mut msg, "Deselected: ");
                } else {
                    self.selected_indices.push(orig);
                    push_str(&mut msg, "Selected: ");
                }
                push_str(&mut msg, self.models[orig].filename.as_str());
                self.add_log(ts, msg.as_str());
                proof {
                    if pos < before.len() {
                        assert(before.contains(orig));
                    }
                    assert forall|k: int| 0 <= k < self.selected_indices@.len() implies #[trigger] self.selected_indices@[k]
                        < self.models@.len() by {
                        if pos < before.len() {
                            if k < pos {
                                assert(self.selected_indices@[k] == before[k]);
                            } else {
                                assert(self.selected_indices@[k] == before[k + 1]);
                            }
                        } else if k < before.len() {
                            assert(self.selected_indices@[k] == before[k]);
                        }
                    }
                }
            }
        }
    }

    /// Selects exactly the missing models of `group` (all missing models
    /// when `None`) and logs "Bulk selected group '<group>' (<n> items)."
    /// with "All Missing" standing for no group.
    pub fn select_group(&mut self, group: Option<&str>, installed: &Vec<bool>, ts: &str)
        requires
            app_wf(*old(self)),
            installed@.len() == old(self).models@.len(),
        ensures
            app_wf(*final(self)),
            final(self).selected_indices@ == missing_in_group(
                old(self).models@,
                installed@,
                match group {
                    Some(g) => Some(g@),
                    None => None,
                },
                old(self).models@.len() as int,
            ),
            texts(final(self).logs@) == log_after(
                texts(old(self).logs@),
                log_line(
                    ts@,
                    "Bulk selected group '"@ + (match group {
                        Some(g) => g@,
                        None => "All Missing"@,
                    }) + "' ("@ + decimal(final(self).selected_indices@.len()) + " items)."@,
                ),
            ),
            only_logged(
                App { selected_indices: final(self).selected_indices, ..*old(self) },
                *final(self),
                ts@,
                "Bulk selected group '"@ + (match group {
                    Some(g) => g@,
                    None => "All Missing"@,
                }) + "' ("@ + decimal(final(self).selected_indices@.len()) + " items)."@,
            ),
    {
        let ghost g = match group {
            Some(g) => Some(g@),
            None => None,
        };
        self.selected_indices.clear();
        let mut i: usize = 0;
        while i < self.models.len()
            invariant
                i <= self.models@.len(),
                installed@.len() == self.models@.len(),
                *self == (App { selected_indices: self.selected_indices, ..*old(self) }),
                g == (match group {
                    Some(g) => Some(g@),
                    None => None,
                }),
                self.selected_indices@ == missing_in_group(self.models@, installed@, g, i as int),
                forall|k: int| 0 <= k < self.selected_indices@.len() ==> #[trigger] self.selected_indices@[k] < i,
            decreases self.models@.len() - i,
        {
            let in_group = match group {
                Some(gr) => crate::table::text_eq(self.models[i].group.as_str(), gr),
                None => true,
            };
            if !installed[i] && in_group {
                self.selected_indices.push(i);
            }
            i = i + 1;
        }
        let mut msg = String::new();
        push_str(&mut msg, "Bulk selected group '");
        match group {
            Some(gr) => push_str(&mut msg, gr),
            None => push_str(&mut msg, "All Missing"),
        }
        push_str(&mut msg, "' (");
        push_decimal(&mut msg, self.selected_indices.len() as u64);
        push_str(&mut msg, " items).");
        self.add_log(ts, msg.as_str());
        proof {
            assert(msg@ =~= "Bulk selected group '"@ + (match group {
                Some(gg) => gg@,
                None => "All Missing"@,
            }) + "' ("@ + decimal(self.selected_indices@.len()) + " items)."@);
        }
    }

    /// Adds to the selection each model of the shown list that is missing
    /// and not yet selected (`with_missing_added`), and logs "Selected <n>
    /// missing models in current view." with the number added.
    pub fn select_all_missing_in_view(&mut self, installed: &Vec<bool>, ts: &str)
        requires
            app_wf(*old(self)),
            installed@.len() == old(self).models@.len(),
        ensures
            app_wf(*final(self)),
            select_missing_post(*old(self), *final(self), installed@, ts@),
    {
        let n_models = self.models.len();
        let filtered = self.filtered_models(installed);
        proof {
            lemma_shown_models_positions(
                self.models@,
                installed@,
                self.active_tab,
                self.categories@,
                self.search_query@,
                self.models@.len() as int,
            );
        }
        let ghost start = self.selected_indices@;
        let ghost snap = *self;
        assert(snap == (App { filtered_cache: snap.filtered_cache, filtered_cache_dirty: false, ..*old(self) }));
        let mut count: u64 = 0;
        let mut i: usize = 0;
        assert(filtered@.skip(0) =~= filtered@);
        while i < filtered.len()
            invariant
                i <= filtered@.len(),
                filtered@ == self.filtered_cache@,
                forall|k: int| 0 <= k < filtered@.len() ==> #[trigger] filtered@[k].0 < self.models@.len(),
                installed@.len() == self.models@.len(),
                self.models == old(self).models,
                with_missing_added(start, filtered@, installed@) == with_missing_added(
                    self.selected_indices@,
                    filtered@.skip(i as int),
                    installed@,
                ),
                self.selected_indices@.len() == start.len() + count,
                start == old(self).selected_indices@,
                *self == (App { selected_indices: self.selected_indices, ..snap }),
                snap == (App { filtered_cache: snap.filtered_cache, filtered_cache_dirty: false, ..*old(self) }),
                snap.filtered_cache@ == refreshed_view(*old(self), installed@),
                self.logs@.len() <= LOG_CAPACITY,
                count <= i,
                forall|k: int| 0 <= k < self.selected_indices@.len() ==> #[trigger] self.selected_indices@[k]
                    < self.models@.len(),
            decreases filtered@.len() - i,
        {
            let orig = filtered[i].0;
            let ghost rest = filtered@.skip(i as int);
            assert(rest[0] == filtered@[i as int]);
            assert(rest.drop_first() =~= filtered@.skip(i + 1));
            let present = holds_index(&self.selected_indices, orig);
            if !installed[orig] && !present {
                self.selected_indices.push(orig);
                count = count + 1;
            }
            i = i + 1;
        }
        assert(filtered@.skip(i as int) =~= Seq::<(usize, Model)>::empty());
        let mut msg = String::new();
        push_str(&mut msg, "Selected ");
        push_decimal(&mut msg, count);
        push_str(&mut msg, " missing models in current view.");
        self.add_log(ts, msg.as_str());
    }
}

impl App {
    /// Bytes still to download for the selection (`space_needed`), or
    /// `None` when the sum does not fit in 64 bits.
    pub fn required_space(&self, installed: &Vec<bool>) -> (r: Option<u64>)
        requires
            app_wf(*self),
            installed@.len() == self.models@.len(),
        ensures
            match r {
                Some(n) => n == space_needed(self.models@, installed@, self.selected_indices@),
                None => space_needed(self.models@, installed@, self.selected_indices@) > u64::MAX,
            },
    {
        let mut need: u64 = 0;
        let mut i: usize = 0;
        while i < self.selected_indices.len()
            invariant
                app_wf(*self),
                installed@.len() == self.models@.len(),
                i <= self.selected_indices@.len(),
                need == space_needed(self.models@, installed@, self.selected_indices@.take(i as int)),
            decreases self.selected_indices@.len() - i,
        {
            let idx = self.selected_indices[i];
            assert(self.selected_indices@.take(i + 1).drop_last() =~= self.selected_indices@.take(i as int));
            if !installed[idx] {
                let size = self.models[idx].size_bytes;
                if need > u64::MAX - size {
                    proof {
                        lemma_space_needed_grows(self.models@, installed@, self.selected_indices@, i + 1);
                    }
                    return None;
                }
                need = need + size;
            }
            i = i + 1;
        }
        assert(self.selected_indices@.take(i as int) =~= self.selected_indices@);
        Some(need)
    }

    /// Checks the selection before a download: with a task running it logs
    /// "A task is already running.", with nothing selected "No models
    /// selected."; when the free space `available` is below what the
    /// selection needs it logs "Disk space warning." and shows the warning.
    /// Returns whether the download may start. The bytes a selection needs
    /// are summed in 64 bits, so they must fit there when the sum is made.
    pub fn check_space_and_start(&mut self, installed: &Vec<bool>, available: u64, ts: &str) -> (r: bool)
        requires
            app_wf(*old(self)),
            installed@.len() == old(self).models@.len(),
            !old(self).busy && old(self).selected_indices@.len() > 0 ==> space_needed(
                old(self).models@,
                installed@,
                old(self).selected_indices@,
            ) <= u64::MAX,
        ensures
            app_wf(*final(self)),
            r == (!old(self).busy && old(self).selected_indices@.len() > 0 && available
                >= space_needed(old(self).models@, installed@, old(self).selected_indices@)),
            old(self).busy ==> only_logged(*old(self), *final(self), ts@, "A task is already running."@),
            !old(self).busy && old(self).selected_indices@.len() == 0 ==> only_logged(
                *old(self),
                *final(self),
                ts@,
                "No models selected."@,
            ),
            !old(self).busy && old(self).selected_indices@.len() > 0 && available < space_needed(
                old(self).models@,
                installed@,
                old(self).selected_indices@,
            ) ==> final(self).state == (AppState::DiskSpaceWarning {
                required: space_needed(old(self).models@, installed@, old(self).selected_indices@) as u64,
                available,
            }) && only_logged(
                App { state: final(self).state, ..*old(self) },
                *final(self),
                ts@,
                "Disk space warning."@,
            ),
            r ==> *final(self) == *old(self),
    {
        if self.busy {
            self.add_log(ts, "A task is already running.");
            return false;
        }
        if self.selected_indices.len() == 0 {
            self.add_log(ts, "No models selected.");
            return false;
        }
        let need = match self.required_space(installed) {
            Some(n) => n,
            None => 0,
        };
        if available < need {
            self.add_log(ts, "Disk space warning.");
            self.state = AppState::DiskSpaceWarning { required: need, available };
            return false;
        }
        true
    }

    /// Starts a download of the selection: logs "Starting download of <n>
    /// items.", resets the counters and the worker slot, marks a task as
    /// running, and returns the selected models with their positions.
    pub fn begin_download(&mut self, ts: &str) -> (r: Vec<(usize, Model)>)
        requires
            app_wf(*old(self)),
        ensures
            app_wf(*final(self)),
            r@ == selected_models(old(self).models@, old(self).selected_indices@),
            final(self).active_downloads@ == seq![None::<ActiveDownload>],
            final(self).completed_count == 0,
            final(self).failed_count == 0,
            final(self).total_to_download == old(self).selected_indices@.len(),
            final(self).busy,
            only_logged(
                App {
                    active_downloads: final(self).active_downloads,
                    completed_count: 0,
                    failed_count: 0,
                    total_to_download: final(self).total_to_download,
                    busy: true,
                    ..*old(self)
                },
                *final(self),
                ts@,
                "Starting download of "@ + decimal(old(self).selected_indices@.len()) + " items."@,
            ),
    {
        let mut list: Vec<(usize, Model)> = Vec::new();
        let mut i: usize = 0;
        while i < self.selected_indices.len()
            invariant
                app_wf(*self),
                i <= self.selected_indices@.len(),
                list@ == selected_models(self.models@, self.selected_indices@.take(i as int)),
            decreases self.selected_indices@.len() - i,
        {
            let idx = self.selected_indices[i];
            list.push((idx, self.models[idx].clone()));
            assert(selected_models(self.models@, self.selected_indices@.take(i + 1)) =~= selected_models(
                self.models@,
                self.selected_indices@.take(i as int),
            ).push((idx, self.models@[idx as int])));
            i = i + 1;
        }
        assert(self.selected_indices@.take(i as int) =~= self.selected_indices@);
        let mut msg = String::new();
        push_str(&mut msg, "Starting download of ");
        push_decimal(&mut msg, list.len() as u64);
        push_str(&mut msg, " items.");
        self.add_log(ts, msg.as_str());
        let mut slots: Vec<Option<ActiveDownload>> = Vec::new();
        slots.push(None);
        self.active_downloads = slots;
        self.completed_count = 0;
        self.failed_count = 0;
        self.total_to_download = list.len();
        self.busy = true;
        list
    }

    /// The models a size refresh covers (`refresh_list`). With a task
    /// running it logs "A task is already running." and returns `None`; it
    /// also returns `None` when there is nothing to refresh. Otherwise it
    /// logs "Refreshing <n> model sizes...", marks a task as running, and
    /// returns the list.
    pub fn refresh_targets(&mut self, ts: &str) -> (r: Option<Vec<(usize, Model)>>)
        requires
            app_wf(*old(self)),
        ensures
            app_wf(*final(self)),
            old(self).busy ==> r is None && only_logged(
                *old(self),
                *final(self),
                ts@,
                "A task is already running."@,
            ),
            !old(self).busy ==> {
                let want = refresh_list(
                    old(self).models@,
                    old(self).selected_indices@,
                    if old(self).selected_indices@.len() == 0 {
                        old(self).models@.len() as int
                    } else {
                        old(self).selected_indices@.len() as int
                    },
                );
                &&& want.len() == 0 ==> r is None && *final(self) == *old(self)
                &&& want.len() > 0 ==> (r matches Some(v) && v@ == want)
                &&& want.len() > 0 ==> only_logged(
                    App { busy: true, ..*old(self) },
                    *final(self),
                    ts@,
                    "Refreshing "@ + decimal(want.len()) + " model sizes..."@,
                )
            },
    {
        if self.busy {
            self.add_log(ts, "A task is already running.");
            return None;
        }
        let all = self.selected_indices.len() == 0;
        let n = if all {
            self.models.len()
        } else {
            self.selected_indices.len()
        };
        let mut list: Vec<(usize, Model)> = Vec::new();
        let mut k: usize = 0;
        while k < n
            invariant
                app_wf(*self),
                all == (self.selected_indices@.len() == 0),
                n == (if all {
                    self.models@.len()
                } else {
                    self.selected_indices@.len()
                }),
                k <= n,
                list@ == refresh_list(self.models@, self.selected_indices@, k as int),
            decreases n - k,
        {
            let i = if all {
                k
            } else {
                self.selected_indices[k]
            };
            if i < self.models.len() {
                list.push((i, self.models[i].clone()));
            }
            k = k + 1;
        }
        if list.len() == 0 {
            return None;
        }
        let mut msg = String::new();
        push_str(&mut msg, "Refreshing ");
        push_decimal(&mut msg, list.len() as u64);
        push_str(&mut msg, " model sizes...");
        self.add_log(ts, msg.as_str());
        self.busy = true;
        Some(list)
    }
}

/// Once the prefix sum exceeds 64 bits, so does the whole sum.
proof fn lemma_space_needed_grows(models: Seq<Model>, installed: Seq<bool>, sel: Seq<usize>, i: int)
    requires
        0 <= i <= sel.len(),
    ensures
        space_needed(models, installed, sel.take(i)) <= space_needed(models, installed, sel),
    decreases sel.len() - i,
{
    if i < sel.len() {
        lemma_space_needed_grows(models, installed, sel, i + 1);
        assert(sel.take(i + 1).drop_last() =~= sel.take(i));
    } else {
        assert(sel.take(i) =~= sel);
    }
}

/// A change to the remembered sizes that a download event calls for.
pub enum CacheAction {
    /// Remember `size` for `url`.
    Record { url: String, size: u64 },
    /// Write the remembered sizes to disk.
    Save,
}

/// What the caller has to do after an event: end the running task (drop
/// its event channel) and change the remembered sizes.
pub struct EventEffect {
    pub clear_task: bool,
    pub cache: Option<CacheAction>,
}

/// "W#<n>: " for worker `w` (counted from 1 in messages).
pub open spec fn worker_prefix(w: usize) -> Seq<char> {
    "W#"@ + decimal((w + 1) as nat) + ": "@
}

/// Whether an event can be applied without an arithmetic overflow.
pub open spec fn event_fits(app: App, event: DownloadEvent) -> bool {
    match event {
        DownloadEvent::Start { worker_id, .. } => worker_id < usize::MAX,
        DownloadEvent::ModelFinished { worker_id, success, .. } => worker_id < usize::MAX && (if success {
            app.completed_count < usize::MAX
        } else {
            app.failed_count < usize::MAX
        }),
        DownloadEvent::AllComplete { completed, failed } => completed + failed <= usize::MAX,
        _ => true,
    }
}

fn push_worker_prefix(msg: &mut String, w: usize)
    requires
        w < usize::MAX,
    ensures
        final(msg)@ == old(msg)@ + worker_prefix(w),
{
    push_str(msg, "W#");
    push_decimal(msg, (w + 1) as u64);
    push_str(msg, ": ");
}

/// What applying one event does to the state (`apply_event`), with the
/// effect `r` it asks of the caller.
pub open spec fn event_post(old_app: App, new_app: App, event: DownloadEvent, ts: Seq<char>, r: EventEffect) -> bool {
    &&& app_wf(new_app)
    &&& new_app.busy == old_app.busy
    &&& match event {
        DownloadEvent::Start { worker_id, filename } => {
            &&& only_logged(
                App { active_downloads: new_app.active_downloads, ..old_app },
                new_app,
                ts,
                worker_prefix(worker_id) + "Starting "@ + filename@,
            )
            &&& new_app.active_downloads@ == (if worker_id < old_app.active_downloads@.len() {
                old_app.active_downloads@.update(
                    worker_id as int,
                    Some(
                        ActiveDownload {
                            filename,
                            bytes_downloaded: 0,
                            total_bytes: 0,
                            eta_secs: 0,
                        },
                    ),
                )
            } else {
                old_app.active_downloads@
            })
            &&& !r.clear_task && r.cache is None
        },
        DownloadEvent::Progress { worker_id, downloaded, total, eta_secs, .. } => {
            &&& new_app == (App { active_downloads: new_app.active_downloads, ..old_app })
            &&& new_app.active_downloads@ == (if worker_id < old_app.active_downloads@.len()
                && old_app.active_downloads@[worker_id as int] is Some {
                old_app.active_downloads@.update(
                    worker_id as int,
                    Some(
                        ActiveDownload {
                            filename: old_app.active_downloads@[worker_id as int]->0.filename,
                            bytes_downloaded: downloaded,
                            total_bytes: total,
                            eta_secs,
                        },
                    ),
                )
            } else {
                old_app.active_downloads@
            })
            &&& !r.clear_task && r.cache is None
        },
        DownloadEvent::ModelFinished { worker_id, filename, success, error_msg } => {
            &&& only_logged(
                App {
                    active_downloads: new_app.active_downloads,
                    completed_count: new_app.completed_count,
                    failed_count: new_app.failed_count,
                    filtered_cache_dirty: new_app.filtered_cache_dirty,
                    ..old_app
                },
                new_app,
                ts,
                if success {
                    worker_prefix(worker_id) + "\u{2713} "@ + filename@
                } else {
                    worker_prefix(worker_id) + "\u{2717} "@ + filename@ + " \u{2014} "@
                        + match error_msg {
                        Some(e) => e@,
                        None => "unknown error"@,
                    }
                },
            )
            &&& success ==> new_app.completed_count == old_app.completed_count + 1
                && new_app.failed_count == old_app.failed_count
                && new_app.filtered_cache_dirty
            &&& !success ==> new_app.failed_count == old_app.failed_count + 1
                && new_app.completed_count == old_app.completed_count
                && new_app.filtered_cache_dirty == old_app.filtered_cache_dirty
            &&& new_app.active_downloads@ == (if worker_id < old_app.active_downloads@.len() {
                old_app.active_downloads@.update(worker_id as int, None)
            } else {
                old_app.active_downloads@
            })
            &&& !r.clear_task && r.cache is None
        },
        DownloadEvent::AllComplete { completed, failed } => {
            &&& only_logged(
                App {
                    state: new_app.state,
                    selected_indices: new_app.selected_indices,
                    filtered_cache_dirty: true,
                    ..old_app
                },
                new_app,
                ts,
                "Queue done. OK: "@ + decimal(completed as nat) + ", Fail: "@ + decimal(
                    failed as nat,
                ) + " (of "@ + decimal((completed + failed) as nat) + ")"@,
            )
            &&& (new_app.state matches AppState::Finished { completed: c, failed: f, message }
                && c == completed && f == failed && message@ == "Done! OK: "@ + decimal(
                completed as nat,
            ) + ", Fail: "@ + decimal(failed as nat))
            &&& new_app.selected_indices@.len() == 0
            &&& new_app.filtered_cache_dirty
            &&& r.clear_task && r.cache is None
        },
        DownloadEvent::RefreshUpdate { idx, size } => {
            &&& new_app == (App { models: new_app.models, ..old_app })
            &&& idx < old_app.models@.len() ==> {
                &&& new_app.models@ == old_app.models@.update(
                    idx as int,
                    Model { size_bytes: size, ..old_app.models@[idx as int] },
                )
                &&& (r.cache matches Some(CacheAction::Record { url, size: s }) && url@
                    == old_app.models@[idx as int].url@ && s == size)
            }
            &&& idx >= old_app.models@.len() ==> new_app.models == old_app.models
                && r.cache is None
            &&& !r.clear_task
        },
        DownloadEvent::RefreshFinished { .. } => {
            &&& new_app == (App { filtered_cache_dirty: true, ..old_app })
            &&& r.clear_task && (r.cache matches Some(CacheAction::Save))
        },
    }
}

impl App {
    /// Applies one event of the running task: a worker's start, progress
    /// and finish update its slot, the counters and the log; the end of the
    /// queue shows the summary and clears the selection; a refreshed size
    /// updates the model. The effect tells the caller whether the task has
    /// ended and how the remembered sizes change.
    pub fn apply_event(&mut self, event: DownloadEvent, ts: &str) -> (r: EventEffect)
        requires
            app_wf(*old(self)),
            event_fits(*old(self), event),
        ensures
            event_post(*old(self), *final(self), event, ts@, r),
    {
        match event {
            DownloadEvent::Start { worker_id, filename } => {
                let mut msg = String::new();
                push_worker_prefix(&mut msg, worker_id);
                push_str(&mut msg, "Starting ");
                push_str(&mut msg, filename.as_str());
                assert(msg@ =~= worker_prefix(worker_id) + "Starting "@ + filename@);
                self.add_log(ts, msg.as_str());
                if worker_id < self.active_downloads.len() {
                    self.active_downloads.set(
                        worker_id,
                        Some(
                            ActiveDownload {
                                filename,
                                bytes_downloaded: 0,
                                total_bytes: 0,
                                eta_secs: 0,
                            },
                        ),
                    );
                }
                EventEffect { clear_task: false, cache: None }
            },
            DownloadEvent::Progress { worker_id, downloaded, total, eta_secs, .. } => {
                if worker_id < self.active_downloads.len() {
                    let name = match &self.active_downloads[worker_id] {
                        Some(a) => Some(a.filename.clone()),
                        None => None,
                    };
                    if let Some(n) = name {
                        self.active_downloads.set(
                            worker_id,
                            Some(
                                ActiveDownload {
                                    filename: n,
                                    bytes_downloaded: downloaded,
                                    total_bytes: total,
                                    eta_secs,
                                },
                            ),
                        );
                    }
                }
                EventEffect { clear_task: false, cache: None }
            },
            DownloadEvent::ModelFinished { worker_id, filename, success, error_msg } => {
                let mut msg = String::new();
                push_worker_prefix(&mut msg, worker_id);
                if success {
                    push_str(&mut msg, "\u{2713} ");
                    push_str(&mut msg, filename.as_str());
                    self.add_log(ts, msg.as_str());
                    self.completed_count = self.completed_count + 1;
                    self.mark_filtered_dirty();
                } else {
                    push_str(&mut msg, "\u{2717} ");
                    push_str(&mut msg, filename.as_str());
                    push_str(&mut msg, " \u{2014} ");
                    match &error_msg {
                        Some(e) => push_str(&mut msg, e.as_str()),
                        None => push_str(&mut msg, "unknown error"),
                    }
                    self.add_log(ts, msg.as_str());
                    self.failed_count = self.failed_count + 1;
                }
                if worker_id < self.active_downloads.len() {
                    self.active_downloads.set(worker_id, None);
                }
                EventEffect { clear_task: false, cache: None }
            },
            DownloadEvent::AllComplete { completed, failed } => {
                let total = completed + failed;
                let mut msg = String::new();
                push_str(&mut msg, "Queue done. OK: ");
                push_decimal(&mut msg, completed as u64);
                push_str(&mut msg, ", Fail: ");
                push_decimal(&mut msg, failed as u64);
                push_str(&mut msg, " (of ");
                push_decimal(&mut msg, total as u64);
                push_str(&mut msg, ")");
                self.add_log(ts, msg.as_str());
                let mut message = String::new();
                push_str(&mut message, "Done! OK: ");
                push_decimal(&mut message, completed as u64);
                push_str(&mut message, ", Fail: ");
                push_decimal(&mut message, failed as u64);
                self.state = AppState::Finished { completed, failed, message };
                self.selected_indices.clear();
                self.mark_filtered_dirty();
                EventEffect { clear_task: true, cache: None }
            },
            DownloadEvent::RefreshUpdate { idx, size } => {
                if idx < self.models.len() {
                    let mut m = self.models[idx].clone();
                    m.size_bytes = size;
                    let url = m.url.clone();
                    self.models.set(idx, m);
                EventEffect { clear_task: false, cache: Some(CacheAction::Record { url, size }) }
                } else {
                EventEffect { clear_task: false, cache: None }
                }
            },
            DownloadEvent::RefreshFinished { .. } => {
                self.mark_filtered_dirty();
                EventEffect { clear_task: true, cache: Some(CacheAction::Save) }
            },
        }
    }
}

/// Whether an event taken alone carries numbers that fit: worker numbers
/// below the largest `usize`, and a queue summary whose total fits.
pub open spec fn event_numbers_fit(event: DownloadEvent) -> bool {
    match event {
        DownloadEvent::Start { worker_id, .. } => worker_id < usize::MAX,
        DownloadEvent::ModelFinished { worker_id, .. } => worker_id < usize::MAX,
        DownloadEvent::AllComplete { completed, failed } => completed + failed <= usize::MAX,
        _ => true,
    }
}

/// Whether a batch of events can be applied in turn without an arithmetic
/// overflow: each event's numbers fit, and each counter has room for one
/// more finished model per event.
pub open spec fn events_fit(app: App, events: Seq<DownloadEvent>) -> bool {
    &&& app.completed_count + events.len() <= usize::MAX
    &&& app.failed_count + events.len() <= usize::MAX
    &&& forall|i: int| 0 <= i < events.len() ==> event_numbers_fit(#[trigger] events[i])
}

/// `states[i + 1]` is what applying `events[i]` to `states[i]` gives, and
/// `effects[i]` is the effect that step asks for (`event_post`).
pub open spec fn applied_in_turn(
    states: Seq<App>,
    events: Seq<DownloadEvent>,
    ts: Seq<char>,
    effects: Seq<EventEffect>,
) -> bool {
    &&& states.len() == events.len() + 1
    &&& effects.len() == events.len()
    &&& forall|i: int|
        0 <= i < events.len() ==> event_post(states[i], states[i + 1], events[i], ts, #[trigger] effects[i])
}

impl App {
    /// Applies the pending events of the running task in the order they
    /// arrived (`apply_event` on each in turn), returning the effect each one
    /// asks for, in the same order.
    pub fn apply_events(&mut self, events: Vec<DownloadEvent>, ts: &str) -> (effects: Vec<EventEffect>)
        requires
            app_wf(*old(self)),
            events_fit(*old(self), events@),
        ensures
            exists|states: Seq<App>|
                #![trigger applied_in_turn(states, events@, ts@, effects@)]
                applied_in_turn(states, events@, ts@, effects@) && states[0] == *old(self) && states.last()
                    == *final(self),
    {
        let ghost all = events@;
        let ghost start = *self;
        let ghost mut states: Seq<App> = seq![*self];
        let mut effects: Vec<EventEffect> = Vec::new();
        let mut rest = events;
        let mut i: usize = 0;
        while rest.len() > 0
            invariant
                app_wf(*self),
                i <= all.len(),
                rest@ == all.skip(i as int),
                events_fit(start, all),
                states.len() == i + 1,
                effects@.len() == i,
                states[0] == start,
                states.last() == *self,
                self.completed_count <= start.completed_count + i,
                self.failed_count <= start.failed_count + i,
                forall|j: int|
                    0 <= j < i ==> event_post(states[j], states[j + 1], all[j], ts@, #[trigger] effects@[j]),
            decreases rest.len(),
        {
            let e = rest.remove(0);
            assert(all[i as int] == e);
            assert(event_numbers_fit(all[i as int]));
            assert(rest@ =~= all.skip(i + 1));
            let eff = self.apply_event(e, ts);
            proof {
                states = states.push(*self);
            }
            effects.push(eff);
            i = i + 1;
            assert(event_post(states[i - 1], states[i as int], all[i - 1], ts@, effects@[i - 1]));
        }
        assert(all.skip(i as int).len() == 0);
        assert(applied_in_turn(states, all, ts@, effects@));
        effects
    }

    /// Marks the running task as ended, once its events have been taken in.
    pub fn end_task(&mut self)
        ensures
            *final(self) == (App { busy: false, ..*old(self) }),
    {
        self.busy = false;
    }
}

/// Models among `events` that finished with outcome `success`.
pub open spec fn finished_with(events: Seq<DownloadEvent>, success: bool) -> nat
    decreases events.len(),
{
    if events.len() == 0 {
        0
    } else {
        finished_with(events.drop_last(), success) + (if events.last() matches DownloadEvent::ModelFinished {
            success: s,
            ..
        } && s == success {
            1nat
        } else {
            0nat
        })
    }
}

/// Applying a batch of events that holds no queue summary adds each model
/// that finished to the completed or the failed counter, and leaves the
/// selection, the screen, the number of queued models and the busy flag as
/// they were; without size updates in the batch the catalogue is unchanged
/// too.
pub proof fn lemma_batch_counters(
    states: Seq<App>,
    events: Seq<DownloadEvent>,
    ts: Seq<char>,
    effects: Seq<EventEffect>,
)
    requires
        applied_in_turn(states, events, ts, effects),
        forall|i: int| 0 <= i < events.len() ==> !(#[trigger] events[i] is AllComplete),
    ensures
        states.last().completed_count == states[0].completed_count + finished_with(events, true),
        states.last().failed_count == states[0].failed_count + finished_with(events, false),
        (forall|i: int| 0 <= i < events.len() ==> !(#[trigger] events[i] is RefreshUpdate))
            ==> states.last().models == states[0].models,
        states.last().selected_indices == states[0].selected_indices,
        states.last().state == states[0].state,
        states.last().total_to_download == states[0].total_to_download,
        states.last().busy == states[0].busy,
    decreases events.len(),
{
    if events.len() > 0 {
        let n = events.len() - 1;
        let ps = states.drop_last();
        let pe = events.drop_last();
        let pf = effects.drop_last();
        assert forall|i: int| 0 <= i < pe.len() implies event_post(ps[i], ps[i + 1], pe[i], ts, #[trigger] pf[i]) by {
            assert(event_post(states[i], states[i + 1], events[i], ts, effects[i]));
        }
        assert forall|i: int| 0 <= i < pe.len() implies !(#[trigger] pe[i] is AllComplete) by {
            assert(!(events[i] is AllComplete));
        }
        if forall|i: int| 0 <= i < events.len() ==> !(#[trigger] events[i] is RefreshUpdate) {
            assert forall|i: int| 0 <= i < pe.len() implies !(#[trigger] pe[i] is RefreshUpdate) by {
                assert(!(events[i] is RefreshUpdate));
            }
            assert(!(events[n] is RefreshUpdate));
        }
        lemma_batch_counters(ps, pe, ts, pf);
        assert(event_post(states[n], states[n + 1], events[n], ts, effects[n]));
        assert(!(events[n] is AllComplete));
        assert(ps.last() == states[n]);
    }
}

/// A key press, as far as the interface tells keys apart.
pub enum Key {
    Char(char),
    Esc,
    Enter,
    Backspace,
    Tab,
    BackTab,
    Up,
    Down,
    Left,
    Right,
    Other,
}

/// Outside work that a key asks the caller to carry out.
#[derive(PartialEq, Eq, Structural)]
pub enum UiAction {
    /// Nothing to do.
    Continue,
    /// Leave the interface.
    Quit,
    /// Request cancellation of the running downloads.
    CancelDownloads,
    /// Copy the log to the clipboard and log the outcome.
    CopyLogs,
    /// Write the configuration to disk and log the outcome.
    SaveConfig,
    /// Check the free space and start the download (`check_space_and_start`).
    StartDownload,
    /// Refresh the model sizes (`refresh_targets`).
    RefreshSizes,
}

/// Number of pages: all, installed, missing, then one per category.
pub open spec fn page_count(app: App) -> int {
    (app.categories@.len() + 3) as int
}

/// The page tabs are consistent: the active page and the offset lie within
/// the pages, and counting the pages cannot overflow.
pub open spec fn tabs_wf(app: App) -> bool {
    &&& app.categories@.len() + 13 <= usize::MAX
    &&& app.active_tab < page_count(app)
    &&& app.tab_offset <= page_count(app)
}

/// Whether a key can be handled without an arithmetic overflow.
pub open spec fn key_fits(app: App, key: Key) -> bool {
    app.log_viewer_visible && key == Key::Down ==> app.log_scroll < usize::MAX
}

/// Whether `c` is an ASCII digit.
pub open spec fn is_ascii_digit(c: char) -> bool {
    '0' <= c && c <= '9'
}

/// `new` is `old` on a new page `tab`: offset moved to show it, first row
/// highlighted, list to be recomputed.
pub open spec fn switched_page(old_app: App, new_app: App, tab: usize) -> bool {
    new_app == (App {
        active_tab: tab,
        tab_offset: visible_tab_offset(tab, old_app.tab_offset, page_count(old_app) as usize),
        selected: Some(0),
        filtered_cache_dirty: true,
        ..old_app
    })
}

/// `new` differs from `old` only by the log line `msg`.
pub open spec fn only_logged(old_app: App, new_app: App, ts: Seq<char>, msg: Seq<char>) -> bool {
    &&& same_but_log(old_app, new_app)
    &&& texts(new_app.logs@) == log_after(texts(old_app.logs@), log_line(ts, msg))
    &&& texts(new_app.pending_log@) == texts(old_app.pending_log@).push(log_line(ts, msg))
}

/// The message shown when leaving is refused during a download.
pub open spec fn cannot_exit_text() -> Seq<char> {
    "Cannot exit: download is in progress. Cancel first [x] or wait."@
}

/// How a key changes the state while the log viewer is open.
pub open spec fn log_viewer_post(old_app: App, new_app: App, key: Key, r: UiAction) -> bool {
    match key {
        Key::Esc => new_app == (App { log_viewer_visible: false, ..old_app }) && r == UiAction::Continue,
        Key::Up => new_app == (App {
            log_scroll: if old_app.log_scroll > 0 {
                (old_app.log_scroll - 1) as usize
            } else {
                0
            },
            ..old_app
        }) && r == UiAction::Continue,
        Key::Down => new_app == (App { log_scroll: (old_app.log_scroll + 1) as usize, ..old_app })
            && r == UiAction::Continue,
        Key::Char(c) => if c == 'c' || c == 'C' {
            new_app == (App { log_viewer_visible: false, ..old_app }) && r == UiAction::CopyLogs
        } else {
            new_app == old_app && r == UiAction::Continue
        },
        _ => new_app == old_app && r == UiAction::Continue,
    }
}

/// How a key changes the state while the search query is edited.
pub open spec fn search_post(old_app: App, new_app: App, key: Key, r: UiAction) -> bool {
    &&& r == UiAction::Continue
    &&& match key {
        Key::Esc | Key::Enter => new_app == (App { input_mode: InputMode::Normal, ..old_app }),
        Key::Backspace => new_app.search_query@ == (if old_app.search_query@.len() > 0 {
            old_app.search_query@.drop_last()
        } else {
            old_app.search_query@
        }) && new_app == (App {
            search_query: new_app.search_query,
            selected: Some(0),
            filtered_cache_dirty: true,
            ..old_app
        }),
        Key::Char(c) => new_app.search_query@ == old_app.search_query@.push(c) && new_app == (App {
            search_query: new_app.search_query,
            selected: Some(0),
            filtered_cache_dirty: true,
            ..old_app
        }),
        _ => new_app == old_app,
    }
}

/// The highlighted row after moving up in a list of `len` rows.
pub open spec fn row_up(selected: Option<usize>, len: int) -> Option<usize> {
    if len > 0 {
        match selected {
            Some(i) => if i == 0 {
                Some((len - 1) as usize)
            } else {
                Some((i - 1) as usize)
            },
            None => Some(0),
        }
    } else {
        selected
    }
}

/// The highlighted row after moving down in a list of `len` rows.
pub open spec fn row_down(selected: Option<usize>, len: int) -> Option<usize> {
    if len > 0 {
        match selected {
            Some(i) => if i >= len - 1 {
                Some(0)
            } else {
                Some((i + 1) as usize)
            },
            None => Some(0),
        }
    } else {
        selected
    }
}

/// How a key changes the state on the model list.
pub open spec fn menu_post(
    old_app: App,
    new_app: App,
    key: Key,
    ctrl: bool,
    installed: Seq<bool>,
    ts: Seq<char>,
    r: UiAction,
) -> bool {
    let total = page_count(old_app);
    match key {
        Key::Esc => if old_app.busy {
            only_logged(old_app, new_app, ts, cannot_exit_text()) && r == UiAction::Continue
        } else {
            new_app == old_app && r == UiAction::Quit
        },
        Key::Tab | Key::Right => switched_page(old_app, new_app, ((old_app.active_tab + 1) % total) as usize)
            && r == UiAction::Continue,
        Key::BackTab | Key::Left => switched_page(
            old_app,
            new_app,
            if old_app.active_tab == 0 {
                (total - 1) as usize
            } else {
                (old_app.active_tab - 1) as usize
            },
        ) && r == UiAction::Continue,
        Key::Up => {
            &&& new_app.filtered_cache@ == refreshed_view(old_app, installed)
            &&& new_app == (App {
                filtered_cache: new_app.filtered_cache,
                filtered_cache_dirty: false,
                selected: row_up(old_app.selected, new_app.filtered_cache@.len() as int),
                ..old_app
            })
            &&& r == UiAction::Continue
        },
        Key::Down => {
            &&& new_app.filtered_cache@ == refreshed_view(old_app, installed)
            &&& new_app == (App {
                filtered_cache: new_app.filtered_cache,
                filtered_cache_dirty: false,
                selected: row_down(old_app.selected, new_app.filtered_cache@.len() as int),
                ..old_app
            })
            &&& r == UiAction::Continue
        },
        Key::Enter => new_app == old_app && r == UiAction::StartDownload,
        Key::Char(c) => if c == 'q' {
            if old_app.busy {
                only_logged(old_app, new_app, ts, cannot_exit_text()) && r == UiAction::Continue
            } else {
                new_app == old_app && r == UiAction::Quit
            }
        } else if c == 'c' && ctrl {
            if old_app.busy {
                only_logged(old_app, new_app, ts, "User cancelled downloading queue."@) && r
                    == UiAction::CancelDownloads
            } else {
                new_app == old_app && r == UiAction::Quit
            }
        } else if c == 'x' || c == 'X' {
            if old_app.busy {
                only_logged(old_app, new_app, ts, "User cancelled downloading queue."@) && r
                    == UiAction::CancelDownloads
            } else {
                new_app == old_app && r == UiAction::Continue
            }
        } else if c == '/' {
            new_app == (App { input_mode: InputMode::Search, ..old_app }) && r == UiAction::Continue
        } else if c == 'c' {
            &&& new_app.state matches AppState::Settings {
                active_field,
                models_dir_input,
                hf_token_input,
            } && active_field == 0 && models_dir_input@ == old_app.config.models_dir@
                && hf_token_input@ == (match old_app.config.hf_token {
                Some(t) => t@,
                None => Seq::<char>::empty(),
            })
            &&& only_logged(
                App { state: new_app.state, ..old_app },
                new_app,
                ts,
                "Settings menu opened."@,
            )
            &&& r == UiAction::Continue
        } else if c == ' ' {
            toggle_post(old_app, new_app, installed, ts) && r == UiAction::Continue
        } else if c == 'a' || c == 'A' {
            select_missing_post(old_app, new_app, installed, ts) && r == UiAction::Continue
        } else if c == 'r' || c == 'R' {
            new_app == old_app && r == UiAction::RefreshSizes
        } else if is_ascii_digit(c) {
            let d = c as int - '0' as int;
            &&& d < total ==> switched_page(old_app, new_app, d as usize)
            &&& d >= total ==> new_app == old_app
            &&& r == UiAction::Continue
        } else if c == '<' || c == ',' {
            new_app == (App {
                tab_offset: if old_app.tab_offset > 0 {
                    (old_app.tab_offset - 1) as usize
                } else {
                    0
                },
                ..old_app
            }) && r == UiAction::Continue
        } else if c == '>' || c == '.' {
            new_app == (App {
                tab_offset: if old_app.tab_offset + VISIBLE_TABS < total {
                    (old_app.tab_offset + 1) as usize
                } else {
                    old_app.tab_offset
                },
                ..old_app
            }) && r == UiAction::Continue
        } else if c == 'd' {
            new_app == old_app && r == UiAction::StartDownload
        } else if c == 'l' || c == 'L' {
            new_app == (App {
                log_viewer_visible: !old_app.log_viewer_visible,
                log_scroll: if old_app.logs@.len() > 0 {
                    (old_app.logs@.len() - 1) as usize
                } else {
                    0
                },
                ..old_app
            }) && r == UiAction::Continue
        } else {
            new_app == old_app && r == UiAction::Continue
        },
        _ => new_app == old_app && r == UiAction::Continue,
    }
}

/// How a key changes the state on the settings form whose field
/// `field` is active and whose inputs are `dir` and `token`.
pub open spec fn settings_post(
    old_app: App,
    new_app: App,
    key: Key,
    ts: Seq<char>,
    field: usize,
    dir: Seq<char>,
    token: Seq<char>,
    r: UiAction,
) -> bool {
    let form = |f: usize, d: Seq<char>, t: Seq<char>|
        new_app.state matches AppState::Settings { active_field, models_dir_input, hf_token_input }
            && active_field == f && models_dir_input@ == d && hf_token_input@ == t;
    let unchanged_but_state = new_app == (App { state: new_app.state, ..old_app });
    match key {
        Key::Esc => new_app.state == AppState::Menu && only_logged(
            App { state: AppState::Menu, ..old_app },
            new_app,
            ts,
            "Settings menu closed without saving."@,
        ) && r == UiAction::Continue,
        Key::Tab | Key::Down => form(((field + 1) % 4) as usize, dir, token) && unchanged_but_state
            && r == UiAction::Continue,
        Key::BackTab | Key::Up => form(
            if field == 0 {
                3
            } else {
                (field - 1) as usize
            },
            dir,
            token,
        ) && unchanged_but_state && r == UiAction::Continue,
        Key::Enter => if field == 2 {
            &&& new_app.state == AppState::Menu
            &&& new_app.config.models_dir@ == dir
            &&& (if token.len() == 0 {
                new_app.config.hf_token is None
            } else {
                new_app.config.hf_token matches Some(t) && t@ == token
            })
            &&& new_app.config.paths == old_app.config.paths
            &&& new_app == (App { state: new_app.state, config: new_app.config, ..old_app })
            &&& r == UiAction::SaveConfig
        } else if field == 3 {
            new_app.state == AppState::Menu && only_logged(
                App { state: AppState::Menu, ..old_app },
                new_app,
                ts,
                "Settings menu closed without saving."@,
            ) && r == UiAction::Continue
        } else {
            form(((field + 1) % 4) as usize, dir, token) && unchanged_but_state && r
                == UiAction::Continue
        },
        Key::Backspace => form(
            field,
            if field == 0 && dir.len() > 0 {
                dir.drop_last()
            } else {
                dir
            },
            if field == 1 && token.len() > 0 {
                token.drop_last()
            } else {
                token
            },
        ) && unchanged_but_state && r == UiAction::Continue,
        Key::Char(c) => form(
            field,
            if field == 0 {
                dir.push(c)
            } else {
                dir
            },
            if field == 1 {
                token.push(c)
            } else {
                token
            },
        ) && unchanged_but_state && r == UiAction::Continue,
        _ => form(field, dir, token) && unchanged_but_state && r == UiAction::Continue,
    }
}

/// How a key changes the state: the log viewer takes every key while it
/// is open; otherwise the screen shown decides.
pub open spec fn key_post(
    old_app: App,
    new_app: App,
    key: Key,
    ctrl: bool,
    installed: Seq<bool>,
    ts: Seq<char>,
    r: UiAction,
) -> bool {
    if old_app.log_viewer_visible {
        log_viewer_post(old_app, new_app, key, r)
    } else {
        match old_app.state {
            AppState::Menu => if old_app.input_mode == InputMode::Search {
                search_post(old_app, new_app, key, r)
            } else {
                menu_post(old_app, new_app, key, ctrl, installed, ts, r)
            },
            AppState::Settings { active_field, models_dir_input, hf_token_input } => settings_post(
                old_app,
                new_app,
                key,
                ts,
                active_field,
                models_dir_input@,
                hf_token_input@,
                r,
            ),
            AppState::DiskSpaceWarning { .. } => match key {
                Key::Enter => only_logged(
                    old_app,
                    new_app,
                    ts,
                    "Proceeding with download despite disk space warning."@,
                ) && r == UiAction::StartDownload,
                Key::Esc => new_app == (App { state: AppState::Menu, ..old_app }) && r
                    == UiAction::Continue,
                _ => new_app == old_app && r == UiAction::Continue,
            },
            AppState::Finished { .. } => match key {
                Key::Enter | Key::Esc => new_app == (App { state: AppState::Menu, ..old_app }) && r
                    == UiAction::Continue,
                _ => new_app == old_app && r == UiAction::Continue,
            },
        }
    }
}

/// While a task runs, no key leaves the interface; on the model list
/// Ctrl-C and `x` ask to cancel the downloads instead.
pub proof fn lemma_no_exit_by_key_while_busy(
    old_app: App,
    new_app: App,
    key: Key,
    ctrl: bool,
    installed: Seq<bool>,
    ts: Seq<char>,
    r: UiAction,
)
    requires
        old_app.busy,
        key_post(old_app, new_app, key, ctrl, installed, ts, r),
    ensures
        r != UiAction::Quit,
        !old_app.log_viewer_visible && old_app.state == AppState::Menu && old_app.input_mode
            == InputMode::Normal && (key matches Key::Char(c) && (c == 'x' || c == 'X' || (c == 'c'
            && ctrl))) ==> r == UiAction::CancelDownloads,
{
}

impl App {
    /// Handles a key press (`key_post`); `ctrl` tells whether Control was
    /// held, `installed[i]` whether model `i` is on disk, `ts` the time of
    /// day for log lines. The result names the outside work to do.
    pub fn handle_key(&mut self, key: Key, ctrl: bool, installed: &Vec<bool>, ts: &str) -> (r: UiAction)
        requires
            app_wf(*old(self)),
            tabs_wf(*old(self)),
            key_fits(*old(self), key),
            installed@.len() == old(self).models@.len(),
        ensures
            app_wf(*final(self)),
            tabs_wf(*final(self)),
            key_post(*old(self), *final(self), key, ctrl, installed@, ts@, r),
    {
        if self.log_viewer_visible {
            return match key {
                Key::Esc => {
                    self.log_viewer_visible = false;
                    UiAction::Continue
                },
                Key::Up => {
                    if self.log_scroll > 0 {
                        self.log_scroll = self.log_scroll - 1;
                    }
                    UiAction::Continue
                },
                Key::Down => {
                    self.log_scroll = self.log_scroll + 1;
                    UiAction::Continue
                },
                Key::Char(c) => {
                    if c == 'c' || c == 'C' {
                        self.log_viewer_visible = false;
                        UiAction::CopyLogs
                    } else {
                        UiAction::Continue
                    }
                },
                _ => UiAction::Continue,
            };
        }
        let screen: u8 = match &self.state {
            AppState::Menu => 0,
            AppState::Settings { .. } => 1,
            AppState::DiskSpaceWarning { .. } => 2,
            AppState::Finished { .. } => 3,
        };
        if screen == 0 {
            if self.input_mode == InputMode::Search {
                match key {
                    Key::Esc | Key::Enter => {
                        self.input_mode = InputMode::Normal;
                    },
                    Key::Backspace => {
                        pop_char(&mut self.search_query);
                        self.selected = Some(0);
                        self.filtered_cache_dirty = true;
                    },
                    Key::Char(c) => {
                        push_char(&mut self.search_query, c);
                        self.selected = Some(0);
                        self.filtered_cache_dirty = true;
                    },
                    _ => {},
                }
                return UiAction::Continue;
            }
            return self.menu_key(key, ctrl, installed, ts);
        }
        if screen == 1 {
            return self.settings_key(key, ts);
        }
        if screen == 2 {
            return match key {
                Key::Enter => {
                    self.add_log(ts, "Proceeding with download despite disk space warning.");
                    UiAction::StartDownload
                },
                Key::Esc => {
                    self.state = AppState::Menu;
                    UiAction::Continue
                },
                _ => UiAction::Continue,
            };
        }
        match key {
            Key::Enter | Key::Esc => {
                self.state = AppState::Menu;
            },
            _ => {},
        }
        UiAction::Continue
    }

    /// Moves to page `tab`, showing it and highlighting the first row.
    fn switch_page(&mut self, tab: usize)
        requires
            tabs_wf(*old(self)),
            tab < page_count(*old(self)),
        ensures
            switched_page(*old(self), *final(self), tab),
            tabs_wf(*final(self)),
    {
        let total = 3 + self.categories.len();
        self.active_tab = tab;
        self.ensure_active_tab_visible(total);
        self.selected = Some(0);
        self.mark_filtered_dirty();
    }

    fn menu_key(&mut self, key: Key, ctrl: bool, installed: &Vec<bool>, ts: &str) -> (r: UiAction)
        requires
            app_wf(*old(self)),
            tabs_wf(*old(self)),
            installed@.len() == old(self).models@.len(),
            !old(self).log_viewer_visible,
            old(self).state == AppState::Menu,
            old(self).input_mode == InputMode::Normal,
        ensures
            app_wf(*final(self)),
            tabs_wf(*final(self)),
            menu_post(*old(self), *final(self), key, ctrl, installed@, ts@, r),
    {
        let total = 3 + self.categories.len();
        match key {
            Key::Esc => {
                if self.busy {
                    self.add_log(ts, "Cannot exit: download is in progress. Cancel first [x] or wait.");
                    UiAction::Continue
                } else {
                    UiAction::Quit
                }
            },
            Key::Tab | Key::Right => {
                self.switch_page((self.active_tab + 1) % total);
                UiAction::Continue
            },
            Key::BackTab | Key::Left => {
                let tab = if self.active_tab == 0 {
                    total - 1
                } else {
                    self.active_tab - 1
                };
                self.switch_page(tab);
                UiAction::Continue
            },
            Key::Up => {
                let len = self.filtered_models(installed).len();
                if len > 0 {
                    self.selected = Some(
                        match self.selected {
                            Some(i) => if i == 0 {
                                len - 1
                            } else {
                                i - 1
                            },
                            None => 0,
                        },
                    );
                }
                UiAction::Continue
            },
            Key::Down => {
                let len = self.filtered_models(installed).len();
                if len > 0 {
                    self.selected = Some(
                        match self.selected {
                            Some(i) => if i >= len - 1 {
                                0
                            } else {
                                i + 1
                            },
                            None => 0,
                        },
                    );
                }
                UiAction::Continue
            },
            Key::Enter => UiAction::StartDownload,
            Key::Char(c) => {
                if c == 'q' {
                    if self.busy {
                        self.add_log(ts, "Cannot exit: download is in progress. Cancel first [x] or wait.");
                        UiAction::Continue
                    } else {
                        UiAction::Quit
                    }
                } else if c == 'c' && ctrl {
                    if self.busy {
                        self.add_log(ts, "User cancelled downloading queue.");
                        UiAction::CancelDownloads
                    } else {
                        UiAction::Quit
                    }
                } else if c == 'x' || c == 'X' {
                    if self.busy {
                        self.add_log(ts, "User cancelled downloading queue.");
                        UiAction::CancelDownloads
                    } else {
                        UiAction::Continue
                    }
                } else if c == '/' {
                    self.input_mode = InputMode::Search;
                    UiAction::Continue
                } else if c == 'c' {
                    let token = match &self.config.hf_token {
                        Some(t) => t.clone(),
                        None => String::new(),
                    };
                    self.state = AppState::Settings {
                        active_field: 0,
                        models_dir_input: self.config.models_dir.clone(),
                        hf_token_input: token,
                    };
                    self.add_log(ts, "Settings menu opened.");
                    UiAction::Continue
                } else if c == ' ' {
                    self.toggle_selection(installed, ts);
                    UiAction::Continue
                } else if c == 'a' || c == 'A' {
                    self.select_all_missing_in_view(installed, ts);
                    UiAction::Continue
                } else if c == 'r' || c == 'R' {
                    UiAction::RefreshSizes
                } else if '0' <= c && c <= '9' {
                    let d = (c as u32 - '0' as u32) as usize;
                    if d < total {
                        self.switch_page(d);
                    }
                    UiAction::Continue
                } else if c == '<' || c == ',' {
                    if self.tab_offset > 0 {
                        self.tab_offset = self.tab_offset - 1;
                    }
                    UiAction::Continue
                } else if c == '>' || c == '.' {
                    if self.tab_offset + VISIBLE_TABS < total {
                        self.tab_offset = self.tab_offset + 1;
                    }
                    UiAction::Continue
                } else if c == 'd' {
                    UiAction::StartDownload
                } else if c == 'l' || c == 'L' {
                    self.log_viewer_visible = !self.log_viewer_visible;
                    self.log_scroll = if self.logs.len() > 0 {
                        self.logs.len() - 1
                    } else {
                        0
                    };
                    UiAction::Continue
                } else {
                    UiAction::Continue
                }
            },
            _ => UiAction::Continue,
        }
    }

    fn settings_key(&mut self, key: Key, ts: &str) -> (r: UiAction)
        requires
            app_wf(*old(self)),
            tabs_wf(*old(self)),
            old(self).state is Settings,
        ensures
            app_wf(*final(self)),
            tabs_wf(*final(self)),
            match old(self).state {
                AppState::Settings { active_field, models_dir_input, hf_token_input } => settings_post(
                    *old(self),
                    *final(self),
                    key,
                    ts@,
                    active_field,
                    models_dir_input@,
                    hf_token_input@,
                    r,
                ),
                _ => false,
            },
    {
        let mut st = AppState::Menu;
        std::mem::swap(&mut st, &mut self.state);
        match st {
            AppState::Settings { active_field, mut models_dir_input, mut hf_token_input } => {
                match key {
                    Key::Esc => {
                        self.add_log(ts, "Settings menu closed without saving.");
                        UiAction::Continue
                    },
                    Key::Tab | Key::Down => {
                        self.state = AppState::Settings {
                            active_field: (active_field + 1) % 4,
                            models_dir_input,
                            hf_token_input,
                        };
                        UiAction::Continue
                    },
                    Key::BackTab | Key::Up => {
                        self.state = AppState::Settings {
                            active_field: if active_field == 0 {
                                3
                            } else {
                                active_field - 1
                            },
                            models_dir_input,
                            hf_token_input,
                        };
                        UiAction::Continue
                    },
                    Key::Enter => {
                        if active_field == 2 {
                            self.config.models_dir = models_dir_input;
                            self.config.hf_token = if hf_token_input.as_str().is_empty() {
                                None
                            } else {
                                Some(hf_token_input)
                            };
                            UiAction::SaveConfig
                        } else if active_field == 3 {
                            self.add_log(ts, "Settings menu closed without saving.");
                            UiAction::Continue
                        } else {
                            self.state = AppState::Settings {
                                active_field: (active_field + 1) % 4,
                                models_dir_input,
                                hf_token_input,
                            };
                            UiAction::Continue
                        }
                    },
                    Key::Backspace => {
                        if active_field == 0 {
                            pop_char(&mut models_dir_input);
                        } else if active_field == 1 {
                            pop_char(&mut hf_token_input);
                        }
                        self.state = AppState::Settings { active_field, models_dir_input, hf_token_input };
                        UiAction::Continue
                    },
                    Key::Char(c) => {
                        if active_field == 0 {
                            push_char(&mut models_dir_input, c);
                        } else if active_field == 1 {
                            push_char(&mut hf_token_input, c);
                        }
                        self.state = AppState::Settings { active_field, models_dir_input, hf_token_input };
                        UiAction::Continue
                    },
                    _ => {
                        self.state = AppState::Settings { active_field, models_dir_input, hf_token_input };
                        UiAction::Continue
                    },
                }
            },
            other => {
                self.state = other;
                UiAction::Continue
            },
        }
    }
}

/// Texts in strictly ascending order.
pub open spec fn strictly_ascending(s: Seq<String>) -> bool {
    forall|i: int, j: int| 0 <= i < j < s.len() ==> text_lt(#[trigger] s[i]@, #[trigger] s[j]@)
}

/// Whether some entry of `names` has the text `c`.
pub open spec fn lists_text(names: Seq<String>, c: Seq<char>) -> bool {
    exists|i: int| 0 <= i < names.len() && names[i]@ == c
}

/// Whether one of the first `n` models has category `c`.
pub open spec fn is_category_among(models: Seq<Model>, n: int, c: Seq<char>) -> bool {
    exists|k: int| 0 <= k < n && models[k].category@ == c
}

proof fn lemma_insert_ascending(before: Seq<String>, j: int, x: String)
    requires
        strictly_ascending(before),
        0 <= j <= before.len(),
        forall|i: int| 0 <= i < j ==> text_lt(#[trigger] before[i]@, x@),
        j < before.len() ==> text_lt(x@, before[j]@),
    ensures
        strictly_ascending(before.insert(j, x)),
{
    let after = before.insert(j, x);
    assert forall|a: int, b: int| 0 <= a < b < after.len() implies text_lt(#[trigger] after[a]@, #[trigger] after[b]@) by {
        if b < j {
            assert(after[a] == before[a] && after[b] == before[b]);
        } else if b == j {
            assert(after[a] == before[a]);
        } else if a == j {
            assert(after[b] == before[b - 1]);
            if b - 1 > j {
                assert(text_lt(before[j]@, before[b - 1]@));
                lemma_text_lt_transitive(x@, before[j]@, before[b - 1]@);
            }
        } else if a < j {
            assert(after[a] == before[a] && after[b] == before[b - 1]);
            if b - 1 > j {
                lemma_text_lt_transitive(x@, before[j]@, before[b - 1]@);
            }
            lemma_text_lt_transitive(before[a]@, x@, before[b - 1]@);
        } else {
            assert(after[a] == before[a - 1] && after[b] == before[b - 1]);
        }
    }
}

proof fn lemma_insert_lists(before: Seq<String>, j: int, x: String, c: Seq<char>)
    requires
        0 <= j <= before.len(),
        lists_text(before, c) || x@ == c,
    ensures
        lists_text(before.insert(j, x), c),
{
    let after = before.insert(j, x);
    if x@ == c {
        assert(after[j]@ == c);
    } else {
        let i = choose|i: int| 0 <= i < before.len() && before[i]@ == c;
        if i < j {
            assert(after[i] == before[i]);
        } else {
            assert(after[i + 1] == before[i]);
        }
    }
}

/// The distinct categories of the models, in ascending order (as sorting
/// and deduplicating the category names yields them).
pub fn sorted_categories(models: &Vec<Model>) -> (r: Vec<String>)
    ensures
        strictly_ascending(r@),
        forall|k: int| 0 <= k < models@.len() ==> lists_text(r@, (#[trigger] models@[k]).category@),
        forall|i: int| 0 <= i < r@.len() ==> is_category_among(models@, models@.len() as int, (#[trigger] r@[i])@),
{
    let mut cats: Vec<String> = Vec::new();
    let mut keys: Vec<Vec<char>> = Vec::new();
    let mut m: usize = 0;
    while m < models.len()
        invariant
            m <= models@.len(),
            cats@.len() == keys@.len(),
            forall|i: int| 0 <= i < keys@.len() ==> (#[trigger] keys@[i])@ == cats@[i]@,
            strictly_ascending(cats@),
            forall|k: int| 0 <= k < m ==> lists_text(cats@, (#[trigger] models@[k]).category@),
            forall|i: int| 0 <= i < cats@.len() ==> is_category_among(models@, m as int, (#[trigger] cats@[i])@),
        decreases models@.len() - m,
    {
        let name = models[m].category.clone();
        let key = chars_of(name.as_str());
        let mut j: usize = 0;
        while j < keys.len() && chars_lt(&keys[j], &key)
            invariant
                j <= keys@.len(),
                cats@.len() == keys@.len(),
                forall|i: int| 0 <= i < keys@.len() ==> (#[trigger] keys@[i])@ == cats@[i]@,
                forall|i: int| 0 <= i < j ==> text_lt(#[trigger] cats@[i]@, key@),
            decreases keys@.len() - j,
        {
            j = j + 1;
        }
        let ghost before = cats@;
        let ghost before_keys = keys@;
        let present = j < keys.len() && !chars_lt(&key, &keys[j]);
        proof {
            if j < keys@.len() {
                lemma_text_lt_total(key@, keys@[j as int]@);
            }
            assert forall|i: int| 0 <= i < before.len() implies is_category_among(models@, m + 1, (#[trigger] before[i])@) by {
                let k = choose|k: int| 0 <= k < m && models@[k].category@ == before[i]@;
            }
        }
        if present {
            proof {
                assert(cats@[j as int]@ == models@[m as int].category@);
                assert forall|k: int| 0 <= k < m + 1 implies lists_text(cats@, (#[trigger] models@[k]).category@) by {
                    if k == m {
                        assert(cats@[j as int]@ == models@[k].category@);
                    }
                }
            }
        } else {
            cats.insert(j, name);
            keys.insert(j, key);
            proof {
                assert(cats@ == before.insert(j as int, cats@[j as int]));
                lemma_insert_ascending(before, j as int, cats@[j as int]);
                assert forall|i: int| 0 <= i < keys@.len() implies (#[trigger] keys@[i])@ == cats@[i]@ by {
                    if i < j {
                        assert(keys@[i] == before_keys[i] && cats@[i] == before[i]);
                    } else if i > j {
                        assert(keys@[i] == before_keys[i - 1] && cats@[i] == before[i - 1]);
                    }
                }
                assert forall|k: int| 0 <= k < m + 1 implies lists_text(cats@, (#[trigger] models@[k]).category@) by {
                    lemma_insert_lists(before, j as int, cats@[j as int], models@[k].category@);
                }
                assert forall|i: int| 0 <= i < cats@.len() implies is_category_among(models@, m + 1, (#[trigger] cats@[i])@) by {
                    if i == j {
                        assert(models@[m as int].category@ == cats@[i]@);
                    } else if i < j {
                        assert(cats@[i] == before[i]);
                    } else {
                        assert(cats@[i] == before[i - 1]);
                    }
                }
            }
        }
        m = m + 1;
    }
    cats
}

impl App {
    /// The interface state for a catalogue and a configuration: the first
    /// model highlighted (if any), the categories sorted and deduplicated,
    /// nothing selected, two idle worker slots, and the log line
    /// "Downloader initialized successfully.".
    pub fn new(models: Vec<Model>, config: Config, ts: &str) -> (app: App)
        requires
            models@.len() + 13 <= usize::MAX,
        ensures
            app_wf(app),
            tabs_wf(app),
            app.models == models,
            app.config == config,
            app.selected == (if models@.len() > 0 {
                Some(0usize)
            } else {
                None
            }),
            app.selected_indices@.len() == 0,
            app.state == AppState::Menu,
            !app.busy,
            app.input_mode == InputMode::Normal,
            app.search_query@.len() == 0,
            app.filtered_cache_dirty,
            texts(app.logs@) == seq![log_line(ts@, "Downloader initialized successfully."@)],
            texts(app.pending_log@) == texts(app.logs@),
            app.filtered_cache@.len() == 0,
            app.active_tab == 0,
            app.tab_offset == 0,
            strictly_ascending(app.categories@),
            forall|k: int| 0 <= k < models@.len() ==> lists_text(app.categories@, (#[trigger] models@[k]).category@),
            forall|i: int| 0 <= i < app.categories@.len() ==> is_category_among(
                models@,
                models@.len() as int,
                (#[trigger] app.categories@[i])@,
            ),
            app.active_downloads@ == seq![None::<ActiveDownload>, None::<ActiveDownload>],
            app.completed_count == 0,
            app.failed_count == 0,
            app.total_to_download == 0,
            !app.log_viewer_visible,
            app.log_scroll == 0,
    {
        let selected = if models.len() > 0 {
            Some(0)
        } else {
            None
        };
        let categories = sorted_categories(&models);
        proof {
            assert(categories@.len() <= models@.len()) by {
                lemma_distinct_texts_bounded(categories@, models@);
            }
        }
        let mut slots: Vec<Option<ActiveDownload>> = Vec::new();
        slots.push(None);
        slots.push(None);
        let mut app = App {
            models,
            config,
            selected,
            selected_indices: Vec::new(),
            state: AppState::Menu,
            busy: false,
            input_mode: InputMode::Normal,
            search_query: String::new(),
            filtered_cache: Vec::new(),
            filtered_cache_dirty: true,
            logs: Vec::new(),
            pending_log: Vec::new(),
            active_tab: 0,
            tab_offset: 0,
            categories,
            active_downloads: slots,
            completed_count: 0,
            failed_count: 0,
            total_to_download: 0,
            log_viewer_visible: false,
            log_scroll: 0,
        };
        app.add_log(ts, "Downloader initialized successfully.");
        proof {
            assert(texts(app.logs@) =~= seq![log_line(ts@, "Downloader initialized successfully."@)]);
            assert(app.active_downloads@ =~= seq![None::<ActiveDownload>, None::<ActiveDownload>]);
        }
        app
    }
}

/// A strictly increasing list of texts, each the category of some model,
/// has at most as many entries as there are models.
proof fn lemma_distinct_texts_bounded(cats: Seq<String>, models: Seq<Model>)
    requires
        strictly_ascending(cats),
        forall|i: int| 0 <= i < cats.len() ==> is_category_among(models, models.len() as int, (#[trigger] cats[i])@),
    ensures
        cats.len() <= models.len(),
{
    let f = |i: int| choose|k: int| 0 <= k < models.len() && models[k].category@ == cats[i]@;
    assert forall|i: int| 0 <= i < cats.len() implies 0 <= #[trigger] f(i) < models.len() && models[f(i)].category@ == cats[i]@ by {
        assert(is_category_among(models, models.len() as int, cats[i]@));
    }
    assert forall|i: int, j: int| 0 <= i < j < cats.len() implies #[trigger] f(i) != #[trigger] f(j) by {
        assert(text_lt(cats[i]@, cats[j]@));
        if f(i) == f(j) {
            lemma_text_lt_irreflexive(cats[i]@);
        }
    }
    lemma_injective_image_bounded(cats.len(), models.len(), f);
}

/// An injective map from `0..n` into `0..m` needs `n <= m`.
proof fn lemma_injective_image_bounded(n: nat, m: nat, f: spec_fn(int) -> int)
    requires
        forall|i: int| 0 <= i < n ==> 0 <= #[trigger] f(i) < m,
        forall|i: int, j: int| 0 <= i < j < n ==> #[trigger] f(i) != #[trigger] f(j),
    ensures
        n <= m,
    decreases n,
{
    if n > 0 {
        let last = f(n - 1);
        let g = |i: int| if f(i) > last { f(i) - 1 } else { f(i) };
        assert forall|i: int| 0 <= i < n - 1 implies 0 <= #[trigger] g(i) < m - 1 by {
            assert(f(i) != f(n - 1));
        }
        assert forall|i: int, j: int| 0 <= i < j < n - 1 implies #[trigger] g(i) != #[trigger] g(j) by {
            assert(f(i) != f(j));
        }
        if m == 0 {
            assert(0 <= f(0) < m);
        } else {
            lemma_injective_image_bounded((n - 1) as nat, (m - 1) as nat, g);
        }
    }
}

/// A rectangle of the terminal, in cells.
#[derive(Clone, Copy)]
pub struct Area {
    pub x: u16,
    pub y: u16,
    pub width: u16,
    pub height: u16,
}

/// Where the clickable parts of the screen were drawn: the page tabs, the
/// model list, the status bar, the download progress panel, and the popups
/// of the disk-space warning and of the finished queue.
#[derive(Clone, Copy)]
pub struct ClickLayout {
    pub tab_bar: Area,
    pub list: Area,
    pub status_bar: Area,
    pub progress: Area,
    pub warning_popup: Area,
    pub finished_popup: Area,
}

/// Whether the positions derived from a layout fit in 16 bits.
pub open spec fn layout_fits(l: ClickLayout) -> bool {
    &&& l.list.y + l.list.height <= u16::MAX
    &&& l.list.x + l.list.width <= u16::MAX
    &&& l.progress.y + l.progress.height <= u16::MAX
    &&& l.progress.x + 26 <= u16::MAX
    &&& l.warning_popup.y + 9 <= u16::MAX
    &&& l.finished_popup.y + 6 <= u16::MAX
}

/// `a - b`, or 0 when `b > a`.
pub open spec fn sat_sub(a: int, b: int) -> int {
    if a >= b {
        a - b
    } else {
        0
    }
}

/// Whether the click at (`row`, `column`) falls inside the rows of the
/// model list (inside its border).
pub open spec fn in_list(l: Area, row: u16, column: u16) -> bool {
    row > l.y && row < l.y + sat_sub(l.height as int, 1) && column > l.x && column < l.x + sat_sub(
        l.width as int,
        1,
    )
}

/// The page a click on the tab bar at column `col` (relative to the bar)
/// selects, if any: tabs are five cells wide with one cell between them,
/// starting at column 8.
pub open spec fn clicked_tab(offset: usize, col: int, total: int) -> Option<usize> {
    if 8 <= col < 68 && (col - 8) % 6 < 5 && offset + (col - 8) / 6 < total {
        Some((offset + (col - 8) / 6) as usize)
    } else {
        None
    }
}

/// The cancel post-step of a click: while a task runs, a click on the
/// "cancel" line of the progress panel logs the cancellation and asks to
/// cancel.
pub open spec fn on_cancel_button(app: App, l: ClickLayout, row: u16, column: u16) -> bool {
    app.busy && row == l.progress.y + sat_sub(l.progress.height as int, 2) && column >= l.progress.x + 3
        && column < l.progress.x + 26
}

/// How a click on the model list screen changes the state, before the
/// cancel step.
pub open spec fn menu_click_post(
    old_app: App,
    new_app: App,
    l: ClickLayout,
    row: u16,
    column: u16,
    list_offset: usize,
    installed: Seq<bool>,
    ts: Seq<char>,
    r: UiAction,
) -> bool {
    let total = page_count(old_app);
    if row == l.tab_bar.y {
        let col = sat_sub(column as int, l.tab_bar.x as int);
        &&& r == UiAction::Continue
        &&& if 2 <= col < 7 {
            new_app == (App {
                tab_offset: if old_app.tab_offset > 0 {
                    (old_app.tab_offset - 1) as usize
                } else {
                    0
                },
                ..old_app
            })
        } else if 68 <= col < 73 {
            new_app == (App {
                tab_offset: if old_app.tab_offset + VISIBLE_TABS < total {
                    (old_app.tab_offset + 1) as usize
                } else {
                    old_app.tab_offset
                },
                ..old_app
            })
        } else {
            match clicked_tab(old_app.tab_offset, col, total) {
                Some(t) => new_app == (App { active_tab: t, selected: Some(0), ..old_app }),
                None => new_app == old_app,
            }
        }
    } else if in_list(l.list, row, column) {
        let clicked = list_offset + (row - (l.list.y + 1));
        &&& r == UiAction::Continue
        &&& new_app.filtered_cache@ == refreshed_view(old_app, installed)
        &&& if clicked < new_app.filtered_cache@.len() && old_app.selected == Some(clicked as usize) {
            toggle_post(old_app, new_app, installed, ts)
        } else {
            new_app == (App {
                filtered_cache: new_app.filtered_cache,
                filtered_cache_dirty: false,
                selected: if clicked < new_app.filtered_cache@.len() {
                    Some(clicked as usize)
                } else {
                    old_app.selected
                },
                ..old_app
            })
        }
    } else if row == l.status_bar.y {
        let col = sat_sub(column as int, l.status_bar.x as int);
        let copy_start: int = if old_app.busy {
            115
        } else {
            130
        };
        if copy_start <= col <= copy_start + 15 {
            new_app == old_app && r == UiAction::CopyLogs
        } else if old_app.input_mode == InputMode::Normal {
            if 56 <= col <= 74 {
                new_app == (App { input_mode: InputMode::Search, ..old_app }) && r == UiAction::Continue
            } else if 75 <= col <= 101 {
                select_missing_post(old_app, new_app, installed, ts) && r == UiAction::Continue
            } else if 102 <= col <= 117 {
                new_app == old_app && r == UiAction::RefreshSizes
            } else if 118 <= col <= 134 {
                &&& new_app.state matches AppState::Settings {
                    active_field,
                    models_dir_input,
                    hf_token_input,
                } && active_field == 0 && models_dir_input@ == old_app.config.models_dir@
                    && hf_token_input@ == (match old_app.config.hf_token {
                    Some(t) => t@,
                    None => Seq::<char>::empty(),
                })
                &&& new_app == (App { state: new_app.state, ..old_app })
                &&& r == UiAction::Continue
            } else if 135 <= col <= 154 {
                new_app == old_app && r == UiAction::StartDownload
            } else if col >= 155 {
                if old_app.busy {
                    only_logged(old_app, new_app, ts, cannot_exit_text()) && r == UiAction::Continue
                } else {
                    new_app == old_app && r == UiAction::Quit
                }
            } else {
                new_app == old_app && r == UiAction::Continue
            }
        } else {
            new_app == old_app && r == UiAction::Continue
        }
    } else {
        new_app == old_app && r == UiAction::Continue
    }
}

/// How a left click changes the state; `r.0` is the outside work asked for
/// and `r.1` whether to cancel the running downloads. On the model list a
/// click on the cancel line of the progress panel also logs the
/// cancellation and asks to cancel, after whatever the click did before,
/// unless that was leaving.
pub open spec fn click_post(
    old_app: App,
    new_app: App,
    l: ClickLayout,
    row: u16,
    column: u16,
    list_offset: usize,
    installed: Seq<bool>,
    ts: Seq<char>,
    r: (UiAction, bool),
) -> bool {
    match old_app.state {
        AppState::Menu => if on_cancel_button(old_app, l, row, column) && r.0 != UiAction::Quit {
            &&& exists|mid: App|
                #![trigger menu_click_post(old_app, mid, l, row, column, list_offset, installed, ts, r.0)]
                menu_click_post(old_app, mid, l, row, column, list_offset, installed, ts, r.0)
                    && only_logged(mid, new_app, ts, "User cancelled downloading queue."@)
            &&& r.1
        } else {
            menu_click_post(old_app, new_app, l, row, column, list_offset, installed, ts, r.0) && !r.1
        },
        AppState::Settings { .. } => new_app == old_app && r == (UiAction::Continue, false),
        AppState::DiskSpaceWarning { .. } => {
            let col = sat_sub(column as int, l.warning_popup.x as int);
            if row == l.warning_popup.y + 9 && 4 <= col <= 18 {
                only_logged(old_app, new_app, ts, "Proceeding with download despite disk space warning."@)
                    && r == (UiAction::StartDownload, false)
            } else if row == l.warning_popup.y + 9 && 24 <= col <= 37 {
                new_app == (App { state: AppState::Menu, ..old_app }) && r == (UiAction::Continue, false)
            } else {
                new_app == old_app && r == (UiAction::Continue, false)
            }
        },
        AppState::Finished { .. } => {
            let col = sat_sub(column as int, l.finished_popup.x as int);
            if row == l.finished_popup.y + 6 && 4 <= col <= 13 {
                new_app == (App { state: AppState::Menu, ..old_app }) && r == (UiAction::Continue, false)
            } else {
                new_app == old_app && r == (UiAction::Continue, false)
            }
        },
    }
}

impl App {
    fn menu_click(
        &mut self,
        l: &ClickLayout,
        row: u16,
        column: u16,
        list_offset: usize,
        installed: &Vec<bool>,
        ts: &str,
    ) -> (r: UiAction)
        requires
            app_wf(*old(self)),
            tabs_wf(*old(self)),
            layout_fits(*l),
            installed@.len() == old(self).models@.len(),
            old(self).state == AppState::Menu,
            row >= l.list.y + 1 ==> list_offset + (row - (l.list.y + 1)) <= usize::MAX,
        ensures
            app_wf(*final(self)),
            tabs_wf(*final(self)),
            menu_click_post(*old(self), *final(self), *l, row, column, list_offset, installed@, ts@, r),
            final(self).busy == old(self).busy,
            final(self).state is Menu || final(self).state is Settings,
    {
        let total = 3 + self.categories.len();
        if row == l.tab_bar.y {
            let col = if column >= l.tab_bar.x {
                column - l.tab_bar.x
            } else {
                0
            };
            if 2 <= col && col < 7 {
                if self.tab_offset > 0 {
                    self.tab_offset = self.tab_offset - 1;
                }
            } else if 68 <= col && col < 73 {
                if self.tab_offset + VISIBLE_TABS < total {
                    self.tab_offset = self.tab_offset + 1;
                }
            } else if 8 <= col && col < 68 {
                let i = (col - 8) / 6;
                let rem = (col - 8) % 6;
                if rem < 5 {
                    let actual = self.tab_offset + i as usize;
                    if actual < total {
                        self.active_tab = actual;
                        self.selected = Some(0);
                    }
                }
            }
            return UiAction::Continue;
        }
        let list_bottom = l.list.y + if l.list.height >= 1 {
            l.list.height - 1
        } else {
            0
        };
        let list_right = l.list.x + if l.list.width >= 1 {
            l.list.width - 1
        } else {
            0
        };
        if row > l.list.y && row < list_bottom && column > l.list.x && column < list_right {
            let clicked_row = row - (l.list.y + 1);
            let filtered = self.filtered_models(installed);
            let clicked_idx = list_offset + clicked_row as usize;
            if clicked_idx < filtered.len() {
                if self.selected == Some(clicked_idx) {
                    self.toggle_selection(installed, ts);
                } else {
                    self.selected = Some(clicked_idx);
                }
            }
            return UiAction::Continue;
        }
        if row == l.status_bar.y {
            let col = if column >= l.status_bar.x {
                column - l.status_bar.x
            } else {
                0
            };
            let copy_start: u16 = if self.busy {
                115
            } else {
                130
            };
            if col >= copy_start && col <= copy_start + 15 {
                return UiAction::CopyLogs;
            }
            if self.input_mode == InputMode::Normal {
                if 56 <= col && col <= 74 {
                    self.input_mode = InputMode::Search;
                } else if 75 <= col && col <= 101 {
                    self.select_all_missing_in_view(installed, ts);
                } else if 102 <= col && col <= 117 {
                    return UiAction::RefreshSizes;
                } else if 118 <= col && col <= 134 {
                    let token = match &self.config.hf_token {
                        Some(t) => t.clone(),
                        None => String::new(),
                    };
                    self.state = AppState::Settings {
                        active_field: 0,
                        models_dir_input: self.config.models_dir.clone(),
                        hf_token_input: token,
                    };
                } else if 135 <= col && col <= 154 {
                    return UiAction::StartDownload;
                } else if col >= 155 {
                    if self.busy {
                        self.add_log(ts, "Cannot exit: download is in progress. Cancel first [x] or wait.");
                    } else {
                        return UiAction::Quit;
                    }
                }
            }
        }
        UiAction::Continue
    }

    /// Handles a left click at (`row`, `column`) on a screen laid out as
    /// `layout` (`click_post`); `list_offset` is the first model row shown,
    /// `installed[i]` tells whether model `i` is on disk, `ts` is the time of
    /// day for log lines.
    pub fn handle_click(
        &mut self,
        layout: &ClickLayout,
        row: u16,
        column: u16,
        list_offset: usize,
        installed: &Vec<bool>,
        ts: &str,
    ) -> (r: (UiAction, bool))
        requires
            app_wf(*old(self)),
            tabs_wf(*old(self)),
            layout_fits(*layout),
            installed@.len() == old(self).models@.len(),
            row >= layout.list.y + 1 ==> list_offset + (row - (layout.list.y + 1)) <= usize::MAX,
        ensures
            app_wf(*final(self)),
            tabs_wf(*final(self)),
            click_post(*old(self), *final(self), *layout, row, column, list_offset, installed@, ts@, r),
    {
        let screen: u8 = match &self.state {
            AppState::Menu => 0,
            AppState::Settings { .. } => 1,
            AppState::DiskSpaceWarning { .. } => 2,
            AppState::Finished { .. } => 3,
        };
        if screen == 0 {
            let cancel = self.busy && row == layout.progress.y + if layout.progress.height >= 2 {
                layout.progress.height - 2
            } else {
                0
            } && column >= layout.progress.x + 3 && column < layout.progress.x + 26;
            let first = self.menu_click(layout, row, column, list_offset, installed, ts);
            if cancel && first != UiAction::Quit {
                self.add_log(ts, "User cancelled downloading queue.");
                return (first, true);
            }
            return (first, false);
        }
        if screen == 2 {
            let col = if column >= layout.warning_popup.x {
                column - layout.warning_popup.x
            } else {
                0
            };
            if row == layout.warning_popup.y + 9 {
                if 4 <= col && col <= 18 {
                    self.add_log(ts, "Proceeding with download despite disk space warning.");
                    return (UiAction::StartDownload, false);
                } else if 24 <= col && col <= 37 {
                    self.state = AppState::Menu;
                }
            }
            return (UiAction::Continue, false);
        }
        if screen == 3 {
            let col = if column >= layout.finished_popup.x {
                column - layout.finished_popup.x
            } else {
                0
            };
            if row == layout.finished_popup.y + 6 && 4 <= col && col <= 13 {
                self.state = AppState::Menu;
            }
        }
        (UiAction::Continue, false)
    }
}

/// While a task runs, no click leaves the interface.
pub proof fn lemma_no_exit_by_click_while_busy(
    old_app: App,
    new_app: App,
    l: ClickLayout,
    row: u16,
    column: u16,
    list_offset: usize,
    installed: Seq<bool>,
    ts: Seq<char>,
    r: (UiAction, bool),
)
    requires
        old_app.busy,
        click_post(old_app, new_app, l, row, column, list_offset, installed, ts, r),
    ensures
        r.0 != UiAction::Quit,
{
}

/// After `ensure_active_tab_visible` an existing page is among the tabs
/// shown, and no shown slot lies past the last page unless there are fewer
/// pages than slots.
pub proof fn lemma_active_tab_visible(active: usize, offset: usize, total_pages: usize)
    requires
        active < total_pages,
        offset + VISIBLE_TABS <= usize::MAX,
    ensures
        visible_tab_offset(active, offset, total_pages) <= active < visible_tab_offset(
            active,
            offset,
            total_pages,
        ) + VISIBLE_TABS,
        total_pages >= VISIBLE_TABS ==> visible_tab_offset(active, offset, total_pages)
            + VISIBLE_TABS <= total_pages,
        total_pages < VISIBLE_TABS ==> visible_tab_offset(active, offset, total_pages) == 0,
{
}

/// Whether the page `tab` shows a model of category `category` that is
/// (`on_disk`) or is not installed: page 0 every model, page 1 the installed
/// ones, page 2 the missing ones, page `3 + k` those whose category equals
/// the `k`-th category ignoring ASCII case, a later page every model.
pub open spec fn page_lists(tab: usize, categories: Seq<String>, category: Seq<char>, on_disk: bool) -> bool {
    ||| tab == 0
    ||| (tab == 1 && on_disk)
    ||| (tab == 2 && !on_disk)
    ||| (tab >= 3 && tab - 3 >= categories.len())
    ||| (tab >= 3 && tab - 3 < categories.len() && eq_ignore_ascii_case(category, categories[tab - 3]@))
}

/// Whether a model answers a search: the query is empty, or the lowercased
/// file name, category or group contains the lowercased query.
pub open spec fn answers_search(m: Model, query: Seq<char>) -> bool {
    ||| query.len() == 0
    ||| has_substring(lowercase(m.filename@), lowercase(query))
    ||| has_substring(lowercase(m.category@), lowercase(query))
    ||| has_substring(lowercase(m.group@), lowercase(query))
}

proof fn lemma_shown_includes(
    models: Seq<Model>,
    installed: Seq<bool>,
    tab: usize,
    categories: Seq<String>,
    query: Seq<char>,
    n: int,
    i: int,
)
    requires
        0 <= i < n <= models.len(),
        n <= usize::MAX,
        page_shows(tab, categories, models[i], installed[i]),
        query_matches(query, models[i]),
    ensures
        shown_models(models, installed, tab, categories, query, n).contains((i as usize, models[i])),
    decreases n,
{
    let s = shown_models(models, installed, tab, categories, query, n);
    let p = shown_models(models, installed, tab, categories, query, n - 1);
    if i < n - 1 {
        lemma_shown_includes(models, installed, tab, categories, query, n - 1, i);
        let k = choose|k: int| 0 <= k < p.len() && p[k] == (i as usize, models[i]);
        assert(s[k] == p[k]);
    } else {
        assert(s[s.len() - 1] == (i as usize, models[i]));
    }
}

proof fn lemma_shown_members(
    models: Seq<Model>,
    installed: Seq<bool>,
    tab: usize,
    categories: Seq<String>,
    query: Seq<char>,
    n: int,
)
    requires
        n <= models.len(),
        n <= usize::MAX,
    ensures
        forall|k: int|
            0 <= k < shown_models(models, installed, tab, categories, query, n).len() ==> {
                let e = #[trigger] shown_models(models, installed, tab, categories, query, n)[k];
                &&& (e.0 as int) < n
                &&& e.1 == models[e.0 as int]
                &&& page_shows(tab, categories, e.1, installed[e.0 as int])
                &&& query_matches(query, e.1)
            },
    decreases n,
{
    if n > 0 {
        lemma_shown_members(models, installed, tab, categories, query, n - 1);
        let s = shown_models(models, installed, tab, categories, query, n);
        let p = shown_models(models, installed, tab, categories, query, n - 1);
        assert forall|k: int| 0 <= k < s.len() implies {
            let e = #[trigger] s[k];
            &&& (e.0 as int) < n
            &&& e.1 == models[e.0 as int]
            &&& page_shows(tab, categories, e.1, installed[e.0 as int])
            &&& query_matches(query, e.1)
        } by {
            if k < p.len() {
                assert(s[k] == p[k]);
            }
        }
    }
}

/// The search finds what it should: once the shown list is brought up to
/// date, a model that the active page lists and that answers the search
/// query (its lowercased file name, category or group contains the
/// lowercased query, or the query is empty) is in the list, paired with its
/// position; and every entry of the list is such a model.
pub proof fn lemma_search_shows_exactly_the_matches(
    old_app: App,
    new_app: App,
    installed: Seq<bool>,
    r: Seq<(usize, Model)>,
)
    requires
        filtered_post(old_app, new_app, installed, r),
        old_app.filtered_cache_dirty,
        installed.len() == old_app.models@.len(),
        old_app.models@.len() <= usize::MAX,
    ensures
        forall|i: int|
            0 <= i < old_app.models@.len() && page_lists(
                old_app.active_tab,
                old_app.categories@,
                old_app.models@[i].category@,
                installed[i],
            ) && answers_search(#[trigger] old_app.models@[i], old_app.search_query@) ==> r.contains(
                (i as usize, old_app.models@[i]),
            ),
        forall|k: int|
            0 <= k < r.len() ==> {
                let e = #[trigger] r[k];
                &&& (e.0 as int) < old_app.models@.len()
                &&& e.1 == old_app.models@[e.0 as int]
                &&& page_lists(old_app.active_tab, old_app.categories@, e.1.category@, installed[e.0 as int])
                &&& answers_search(e.1, old_app.search_query@)
            },
{
    let models = old_app.models@;
    let n = models.len() as int;
    assert forall|i: int|
        0 <= i < models.len() && page_lists(
            old_app.active_tab,
            old_app.categories@,
            models[i].category@,
            installed[i],
        ) && answers_search(#[trigger] models[i], old_app.search_query@) implies r.contains(
        (i as usize, models[i]),
    ) by {
        lemma_shown_includes(
            models,
            installed,
            old_app.active_tab,
            old_app.categories@,
            old_app.search_query@,
            n,
            i,
        );
    }
    lemma_shown_members(models, installed, old_app.active_tab, old_app.categories@, old_app.search_query@, n);
}

/// Clicking a page tab opens the page drawn there: the tab bar shows the
/// pages `tab_offset`, `tab_offset + 1`, ... in slots five cells wide with
/// one cell between them, the first slot at column 8 of the bar; a click on
/// slot `slot` of an existing page makes that page, `tab_offset + slot`,
/// the active one, with the first row highlighted.
pub proof fn lemma_tab_click_opens_drawn_page(
    old_app: App,
    new_app: App,
    l: ClickLayout,
    row: u16,
    column: u16,
    list_offset: usize,
    installed: Seq<bool>,
    ts: Seq<char>,
    r: (UiAction, bool),
    slot: int,
    cell: int,
)
    requires
        click_post(old_app, new_app, l, row, column, list_offset, installed, ts, r),
        old_app.state == AppState::Menu,
        tabs_wf(old_app),
        row == l.tab_bar.y,
        0 <= slot < VISIBLE_TABS,
        0 <= cell < 5,
        column == l.tab_bar.x + 8 + 6 * slot + cell,
        old_app.tab_offset + slot < old_app.categories@.len() + 3,
    ensures
        new_app.active_tab == old_app.tab_offset + slot,
        new_app.selected == Some(0usize),
{
    let col = sat_sub(column as int, l.tab_bar.x as int);
    assert(col == 8 + 6 * slot + cell);
    assert((col - 8) / 6 == slot && (col - 8) % 6 == cell) by (nonlinear_arith)
        requires
            col == 8 + 6 * slot + cell,
            0 <= cell < 5,
            0 <= slot,
    ;
    assert(!(2 <= col < 7) && !(68 <= col < 73));
    assert(clicked_tab(old_app.tab_offset, col, page_count(old_app)) == Some(
        (old_app.tab_offset + slot) as usize,
    ));
    if on_cancel_button(old_app, l, row, column) && r.0 != UiAction::Quit {
        let mid = choose|mid: App|
            #![trigger menu_click_post(old_app, mid, l, row, column, list_offset, installed, ts, r.0)]
            menu_click_post(old_app, mid, l, row, column, list_offset, installed, ts, r.0) && only_logged(
                mid,
                new_app,
                ts,
                "User cancelled downloading queue."@,
            );
        assert(mid.active_tab == old_app.tab_offset + slot);
    }
}

/// Whether `toggled` flips whether `orig` is selected, in a selection
/// without repeats.
proof fn lemma_toggled_flips(sel: Seq<usize>, orig: usize)
    requires
        sel.no_duplicates(),
    ensures
        toggled(sel, orig).contains(orig) == !sel.contains(orig),
{
    lemma_first_index(sel, orig);
    if sel.contains(orig) {
        let i = first_index(sel, orig);
        let t = sel.remove(i);
        if t.contains(orig) {
            let k = choose|k: int| 0 <= k < t.len() && t[k] == orig;
            if k < i {
                assert(sel[k] == orig);
            } else {
                assert(sel[k + 1] == orig && sel[i] == orig);
            }
        }
    } else {
        assert(sel.push(orig)[sel.len() as int] == orig);
    }
}

/// Clicking row `k` inside the model list acts on the entry drawn there,
/// the one at position `list_offset + k` of the shown list: it becomes the
/// highlighted row, and when it already was, its model's selection flips.
pub proof fn lemma_list_click_acts_on_drawn_row(
    old_app: App,
    new_app: App,
    l: ClickLayout,
    row: u16,
    column: u16,
    list_offset: usize,
    installed: Seq<bool>,
    ts: Seq<char>,
    r: (UiAction, bool),
)
    requires
        click_post(old_app, new_app, l, row, column, list_offset, installed, ts, r),
        old_app.state == AppState::Menu,
        row != l.tab_bar.y,
        l.list.y < row,
        row + 1 < l.list.y + l.list.height,
        l.list.x < column,
        column + 1 < l.list.x + l.list.width,
        list_offset + (row - l.list.y - 1) < new_app.filtered_cache@.len(),
        old_app.selected_indices@.no_duplicates(),
    ensures
        new_app.selected == Some((list_offset + (row - l.list.y - 1)) as usize),
        old_app.selected == Some((list_offset + (row - l.list.y - 1)) as usize) ==> {
            let orig = new_app.filtered_cache@[list_offset + (row - l.list.y - 1)].0;
            new_app.selected_indices@.contains(orig) == !old_app.selected_indices@.contains(orig)
        },
        old_app.selected != Some((list_offset + (row - l.list.y - 1)) as usize)
            ==> new_app.selected_indices == old_app.selected_indices,
{
    let k = list_offset + (row - l.list.y - 1);
    assert(in_list(l.list, row, column));
    assert(new_app.filtered_cache.len() == new_app.filtered_cache@.len());
    assert(k == list_offset + (row - (l.list.y + 1)));
    if on_cancel_button(old_app, l, row, column) && r.0 != UiAction::Quit {
        let mid = choose|mid: App|
            #![trigger menu_click_post(old_app, mid, l, row, column, list_offset, installed, ts, r.0)]
            menu_click_post(old_app, mid, l, row, column, list_offset, installed, ts, r.0) && only_logged(
                mid,
                new_app,
                ts,
                "User cancelled downloading queue."@,
            );
        assert(mid.filtered_cache == new_app.filtered_cache);
        assert(mid.selected_indices == new_app.selected_indices);
        if old_app.selected == Some(k as usize) {
            assert(toggle_post(old_app, mid, installed, ts));
            lemma_toggled_flips(old_app.selected_indices@, mid.filtered_cache@[k].0);
        }
    } else {
        if old_app.selected == Some(k as usize) {
            assert(toggle_post(old_app, new_app, installed, ts));
            lemma_toggled_flips(old_app.selected_indices@, new_app.filtered_cache@[k].0);
        }
    }
}

/// Saving the settings form applies what was typed: Enter on the "save"
/// field sets the models directory to the directory input and the token to
/// the token input (no token when that input is empty), keeps the category
/// paths, closes the form, and asks for the configuration to be written.
pub proof fn lemma_settings_save_applies_inputs(
    old_app: App,
    new_app: App,
    ctrl: bool,
    installed: Seq<bool>,
    ts: Seq<char>,
    r: UiAction,
)
    requires
        key_post(old_app, new_app, Key::Enter, ctrl, installed, ts, r),
        !old_app.log_viewer_visible,
        old_app.state matches AppState::Settings { active_field, .. } && active_field == 2,
    ensures
        match old_app.state {
            AppState::Settings { models_dir_input, hf_token_input, .. } => {
                &&& new_app.config.models_dir@ == models_dir_input@
                &&& hf_token_input@.len() == 0 ==> new_app.config.hf_token is None
                &&& hf_token_input@.len() > 0 ==> (new_app.config.hf_token matches Some(t) && t@
                    == hf_token_input@)
            },
            _ => false,
        },
        new_app.config.paths == old_app.config.paths,
        new_app.state == AppState::Menu,
        r == UiAction::SaveConfig,
{
}


/// The page keys move between pages and bring the page they open into
/// view. Tab (or Right) opens the next page, the last one followed by the
/// first; BackTab (or Left) moves the other way, so that the next page of
/// the one it opens is the page it left; a digit below the page count opens
/// the page of that number. The page opened is among the tabs shown, and
/// its first row is highlighted.
pub proof fn lemma_page_keys(
    old_app: App,
    new_app: App,
    key: Key,
    ctrl: bool,
    installed: Seq<bool>,
    ts: Seq<char>,
    r: UiAction,
)
    requires
        key_post(old_app, new_app, key, ctrl, installed, ts, r),
        !old_app.log_viewer_visible,
        old_app.state == AppState::Menu,
        old_app.input_mode == InputMode::Normal,
        tabs_wf(old_app),
        key == Key::Tab || key == Key::Right || key == Key::BackTab || key == Key::Left || (
        key matches Key::Char(c) && '0' <= c <= '9' && (c as int) - ('0' as int) < page_count(
            old_app,
        )),
    ensures
        new_app.active_tab < page_count(old_app),
        new_app.tab_offset <= new_app.active_tab < new_app.tab_offset + VISIBLE_TABS,
        new_app.selected == Some(0usize),
        key == Key::Tab || key == Key::Right ==> new_app.active_tab == if old_app.active_tab + 1
            == page_count(old_app) {
            0
        } else {
            old_app.active_tab + 1
        },
        key == Key::BackTab || key == Key::Left ==> old_app.active_tab == if new_app.active_tab + 1
            == page_count(old_app) {
            0
        } else {
            new_app.active_tab + 1
        },
        key matches Key::Char(c) ==> new_app.active_tab == (c as int) - ('0' as int),
{
    let total = page_count(old_app);
    lemma_active_tab_visible(new_app.active_tab, old_app.tab_offset, total as usize);
    if key == Key::Tab || key == Key::Right {
        let a = old_app.active_tab as int;
        assert((a + 1) % total == if a + 1 == total {
            0
        } else {
            a + 1
        }) by (nonlinear_arith)
            requires
                0 <= a < total,
        ;
    }
}
} // verus!
