//! The interactive core: messages, the application state, and how each
//! message changes it.
//!
//! The terminal shell decodes key presses into [`Key`] values, maps
//! them to [`Message`]s here, and runs [`App::update`] until no message
//! is left; what it must then do — persist, or nothing — comes back as
//! an [`AppEffect`]. Rendering, the real clock and the files stay in
//! the shell; everything that decides stands here.

use vstd::prelude::*;

use crate::date::DateTime;
use crate::date::datetime_lt;
use crate::date::Weekday;
use crate::date::enc_date;
use crate::date::weekday_tag;
use crate::chars::enc_u32;
use crate::sync::SyncAction;
use crate::sync::SyncState;
use crate::sync::SyncStateView;
use crate::todo::KindView;
use crate::todo::Todo;
use crate::todo::TodoKind;
use crate::todo::TodoState;
use crate::todo::TodoView;
use crate::todo::spec_new_todo;
use crate::todo::unique_created;
use crate::todo::wf_todo;
use crate::codec::views_of;

verus! {

/// Whether key presses edit the input line or drive the task list.
#[derive(Debug, PartialEq, Eq, Structural)]
pub enum InputMode {
    Normal,
    Insert,
}

impl Default for InputMode {
    /// A fresh session starts out of the input line.
    fn default() -> (r: Self)
        ensures
            r == InputMode::Normal,
    {
        InputMode::Normal
    }
}

/// Which records stay visible: all of them, one deadline kind, or one
/// derived state.
#[derive(Clone, Copy, Debug, PartialEq, Eq, Structural)]
pub enum FilterType {
    All,
    Expired,
    InProgress,
    NoDeadline,
    UpComing,
    Week,
    Month,
    Once,
    Progress,
    General,
}

/// One step of work for the interactive core.
#[derive(Debug, PartialEq, Eq, Structural)]
pub enum Message {
    /// Turn the input line into a record.
    Add,
    /// Remove the selected record.
    Delete,
    /// Stamp the sync state and persist.
    Save,
    /// Load the selected record back into the input line for editing.
    Rewrite,
    /// Hide every record the filter rejects.
    Filter(FilterType),
    InputModeChange(InputMode),
    SelectPrevious,
    SelectNext,
    /// Persist and end the session.
    Quit,
}

/// A decoded key press, as the shell hands it in.
#[derive(Clone, Copy, Debug, PartialEq, Eq, Structural)]
pub enum Key {
    Char(char),
    Enter,
    Esc,
    Up,
    Down,
    Other,
}

/// What the shell must do after an update step.
#[derive(Clone, Copy, Debug, PartialEq, Eq, Structural)]
pub enum AppEffect {
    /// Nothing beyond rendering.
    Nothing,
    /// Write the collection and sync state to storage.
    Persist,
}

/// The interactive state: the shared collection and sync metadata,
/// the input line, the selection, and the editing bookkeeping.
#[derive(Debug)]
pub struct App {
    pub todo_list: Vec<Todo>,
    pub sync_state: SyncState,
    pub input_mode: InputMode,
    /// The current text of the input line, as the shell last synced it.
    pub input_value: String,
    /// The selected row, counted over the whole collection.
    pub selected: Option<usize>,
    /// Creation stamp of a record being rewritten: the next added
    /// record replaces it.
    pub update_cache: Option<String>,
    pub exit: bool,
}

/// Mathematical image of the interactive state.
pub struct AppView {
    pub todo_list: Seq<TodoView>,
    pub sync_state: SyncStateView,
    pub input_mode: InputMode,
    pub input_value: Seq<char>,
    pub selected: Option<usize>,
    pub update_cache: Option<Seq<char>>,
    pub exit: bool,
}

impl View for App {
    type V = AppView;

    open spec fn view(&self) -> AppView {
        AppView {
            todo_list: views_of(self.todo_list@),
            sync_state: self.sync_state@,
            input_mode: self.input_mode,
            input_value: self.input_value@,
            selected: self.selected,
            update_cache: match self.update_cache {
                Some(ref c) => Some(c@),
                None => None,
            },
            exit: self.exit,
        }
    }
}

/// Every record of the collection can be printed and persisted.
pub open spec fn wf_app(v: AppView) -> bool {
    forall|k: int| 0 <= k < v.todo_list.len() ==> wf_todo(#[trigger] v.todo_list[k])
}

impl App {
    /// A fresh session: empty collection, fresh sync state, nothing
    /// selected or being edited.
    pub fn new() -> (r: App)
        ensures
            r@.todo_list == Seq::<TodoView>::empty(),
            r@.sync_state.last_sync_kind == SyncAction::Init,
            r@.sync_state.last_save_at == crate::date::spec_epoch(),
            r@.sync_state.id == Seq::<char>::empty(),
            r@.input_mode == InputMode::Normal,
            r@.input_value == Seq::<char>::empty(),
            r@.selected is None,
            r@.update_cache is None,
            r@.exit == false,
    {
        let r = App {
            todo_list: Vec::new(),
            sync_state: SyncState::default(),
            input_mode: InputMode::Normal,
            input_value: String::new(),
            selected: None,
            update_cache: None,
            exit: false,
        };
        proof {
            assert(r@.todo_list =~= Seq::<TodoView>::empty());
        }
        r
    }

    /// Takes the input line's current text from the shell.
    pub fn set_input(&mut self, value: String)
        ensures
            final(self)@ == (AppView { input_value: value@, ..old(self)@ }),
    {
        self.input_value = value;
    }
}

/// Whether a filter hides a record.
pub open spec fn filter_hides(ft: FilterType, t: TodoView) -> bool {
    match ft {
        FilterType::All => false,
        FilterType::General => !(t.kind is General),
        FilterType::Week => !(t.kind is Week),
        FilterType::Month => !(t.kind is Month),
        FilterType::Once => !(t.kind is Once),
        FilterType::Progress => !(t.kind is Progress),
        FilterType::Expired => t.state != TodoState::Expired,
        FilterType::InProgress => t.state != TodoState::InProgress,
        FilterType::UpComing => t.state != TodoState::UpComing,
        FilterType::NoDeadline => t.state != TodoState::NoDeadline,
    }
}

fn filter_hides_exec(ft: &FilterType, t: &Todo) -> (r: bool)
    ensures
        r == filter_hides(*ft, t@),
{
    match ft {
        FilterType::All => false,
        FilterType::General => !(matches!(t.kind, TodoKind::General)),
        FilterType::Week => !(matches!(t.kind, TodoKind::Week(_))),
        FilterType::Month => !(matches!(t.kind, TodoKind::Month(_))),
        FilterType::Once => !(matches!(t.kind, TodoKind::Once(_))),
        FilterType::Progress => !(matches!(t.kind, TodoKind::Progress(_))),
        FilterType::Expired => !(t.state == TodoState::Expired),
        FilterType::InProgress => !(t.state == TodoState::InProgress),
        FilterType::UpComing => !(t.state == TodoState::UpComing),
        FilterType::NoDeadline => !(t.state == TodoState::NoDeadline),
    }
}

/// The collection with each record's visibility set by the filter;
/// nothing else changes.
pub open spec fn spec_filtered(l: Seq<TodoView>, ft: FilterType) -> Seq<TodoView> {
    l.map_values(|t: TodoView| TodoView { is_hidden: filter_hides(ft, t), ..t })
}

/// Sets each record's visibility from the filter.
pub fn set_hidden_flags(v: &mut Vec<Todo>, ft: &FilterType)
    ensures
        views_of(final(v)@) == spec_filtered(views_of(old(v)@), *ft),
{
    let n = v.len();
    let mut i: usize = 0;
    while i < n
        invariant
            0 <= i <= n,
            n == v@.len(),
            forall|k: int| i <= k < n ==> #[trigger] v@[k]@ == old(v)@[k]@,
            forall|k: int| 0 <= k < i ==> #[trigger] v@[k]@ == (TodoView {
                is_hidden: filter_hides(*ft, old(v)@[k]@),
                ..old(v)@[k]@
            }),
        decreases n - i,
    {
        let hide = filter_hides_exec(ft, &v[i]);
        let mut t = v.remove(i);
        t.is_hidden = hide;
        v.insert(i, t);
        i = i + 1;
    }
    proof {
        assert(views_of(v@) =~= spec_filtered(views_of(old(v)@), *ft));
    }
}

/// Makes every record visible again, as happens before persisting.
pub fn reset_hidden_flags(v: &mut Vec<Todo>)
    ensures
        views_of(final(v)@) == spec_filtered(views_of(old(v)@), FilterType::All),
{
    set_hidden_flags(v, &FilterType::All)
}

/// Keeps only the records whose creation stamp differs.
pub fn retain_not_created(v: &mut Vec<Todo>, created: &str)
    ensures
        views_of(final(v)@) == views_of(old(v)@).filter(|t: TodoView| t.created_at
            != created@),
{
    let ghost p = |t: TodoView| t.created_at != created@;
    let n = v.len();
    let mut out: Vec<Todo> = Vec::new();
    let mut i: usize = 0;
    proof {
        assert(views_of(v@).take(0) =~= Seq::<TodoView>::empty());
        reveal(Seq::filter);
        assert(views_of(out@) =~= views_of(v@).take(0).filter(p));
    }
    while i < n
        invariant
            0 <= i <= n,
            n == v@.len(),
            views_of(out@) == views_of(v@).take(i as int).filter(|t: TodoView|
                t.created_at != created@),
        decreases n - i,
    {
        let ghost pre = views_of(v@).take(i as int);
        let ghost ext = views_of(v@).take(i + 1int);
        proof {
            reveal(Seq::filter);
            assert(ext.drop_last() =~= pre);
            assert(ext.last() == v@[i as int]@);
        }
        let keep = !substr_eq(v[i].created_at.as_str(), created);
        if keep {
            let t = v[i].duplicate();
            out.push(t);
        }
        proof {
            let p2 = |t: TodoView| t.created_at != created@;
            if keep {
                assert(views_of(out@) =~= ext.filter(p2));
            } else {
                assert(views_of(out@) =~= ext.filter(p2));
            }
        }
        i = i + 1;
    }
    proof {
        assert(views_of(v@).take(n as int) =~= views_of(v@));
    }
    *v = out;
}

/// Whether two texts hold the same characters.
fn substr_eq(a: &str, b: &str) -> (r: bool)
    ensures
        r == (a@ == b@),
{
    let n = a.unicode_len();
    if n != b.unicode_len() {
        return false;
    }
    let mut i: usize = 0;
    while i < n
        invariant
            0 <= i <= n,
            n == a@.len(),
            n == b@.len(),
            forall|k: int| 0 <= k < i ==> a@[k] == b@[k],
        decreases n - i,
    {
        if a.get_char(i) != b.get_char(i) {
            return false;
        }
        i = i + 1;
    }
    proof {
        assert(a@ =~= b@);
    }
    true
}

/// Index, within the whole collection, of the `k`-th visible record at
/// or after `i`; negative if there are not that many.
pub open spec fn nth_visible_from(l: Seq<TodoView>, i: int, k: int) -> int
    decreases l.len() - i,
{
    if i < 0 || i >= l.len() {
        -1
    } else if !l[i].is_hidden {
        if k == 0 {
            i
        } else {
            nth_visible_from(l, i + 1, k - 1)
        }
    } else {
        nth_visible_from(l, i + 1, k)
    }
}

/// Finds the `k`-th visible record, counting from the top.
pub fn nth_visible(v: &Vec<Todo>, k: usize) -> (r: Option<usize>)
    ensures
        nth_visible_from(views_of(v@), 0, k as int) >= 0 ==> nth_visible_from(views_of(
            v@), 0, k as int) < v@.len() && r == Some(nth_visible_from(views_of(v@), 0,
            k as int) as usize),
        nth_visible_from(views_of(v@), 0, k as int) < 0 ==> r is None,
        r is Some ==> r.unwrap() < v@.len() && r.unwrap() as int == nth_visible_from(
            views_of(v@), 0, k as int),
{
    let n = v.len();
    let mut i: usize = 0;
    let mut remaining: usize = k;
    while i < n
        invariant
            0 <= i <= n,
            n == v@.len(),
            nth_visible_from(views_of(v@), 0, k as int) == nth_visible_from(views_of(v@),
                i as int, remaining as int),
        decreases n - i,
    {
        if !v[i].is_hidden {
            if remaining == 0 {
                return Some(i);
            }
            remaining = remaining - 1;
        }
        i = i + 1;
    }
    None
}

/// How many records the current filter leaves visible.
pub fn count_visible(v: &Vec<Todo>) -> (r: usize)
    ensures
        r as int == views_of(v@).filter(|t: TodoView| !t.is_hidden).len(),
{
    let ghost p = |t: TodoView| !t.is_hidden;
    let n = v.len();
    let mut count: usize = 0;
    let mut i: usize = 0;
    proof {
        reveal(Seq::filter);
        assert(views_of(v@).take(0) =~= Seq::<TodoView>::empty());
    }
    while i < n
        invariant
            0 <= i <= n,
            n == v@.len(),
            count <= i,
            count as int == views_of(v@).take(i as int).filter(|t: TodoView|
                !t.is_hidden).len(),
        decreases n - i,
    {
        proof {
            reveal(Seq::filter);
            assert(views_of(v@).take(i + 1int).drop_last() =~= views_of(v@).take(i as int));
            assert(views_of(v@).take(i + 1int).last() == v@[i as int]@);
        }
        if !v[i].is_hidden {
            count = count + 1;
        }
        i = i + 1;
    }
    proof {
        assert(views_of(v@).take(n as int) =~= views_of(v@));
    }
    count
}

/// The input line a record turns back into for editing.
pub open spec fn spec_rewrite_text(t: TodoView) -> Seq<char> {
    match t.kind {
        KindView::General => t.text,
        KindView::Week(w) => t.text + " - "@ + weekday_tag(w),
        KindView::Month(m) => t.text + " - "@ + enc_u32(m as int),
        KindView::Once(d) => t.text + " - "@ + enc_date(d),
        KindView::Progress(p) => t.text + " @ "@ + p,
    }
}

/// Rebuilds the input line a record came from.
pub fn rewrite_text(t: &Todo) -> (r: String)
    requires
        wf_todo(t@),
    ensures
        r@ == spec_rewrite_text(t@),
{
    let mut out = String::new();
    out.append(t.text.as_str());
    match &t.kind {
        TodoKind::General => {},
        TodoKind::Week(w) => {
            out.append(" - ");
            out.append(w.name());
        },
        TodoKind::Month(m) => {
            out.append(" - ");
            crate::chars::push_u32(&mut out, *m);
        },
        TodoKind::Once(d) => {
            out.append(" - ");
            crate::date::push_date(&mut out, d);
        },
        TodoKind::Progress(p) => {
            out.append(" @ ");
            out.append(p.as_str());
        },
    }
    proof {
        assert(out@ =~= spec_rewrite_text(t@));
    }
    out
}

/// Maps a decoded key press to a message, as the current mode reads
/// it: in insert mode only escape and enter act; in normal mode each
/// letter drives the list.
pub fn key_to_message(mode: &InputMode, key: Key) -> (r: Option<Message>)
    ensures
        *mode == InputMode::Insert ==> r == match key {
            Key::Esc => Some(Message::InputModeChange(InputMode::Normal)),
            Key::Enter => Some(Message::Add),
            _ => None::<Message>,
        },
        *mode == InputMode::Normal ==> r == match key {
            Key::Char('q') => Some(Message::Quit),
            Key::Char('d') => Some(Message::Delete),
            Key::Char('g') => Some(Message::Filter(FilterType::General)),
            Key::Char('w') => Some(Message::Filter(FilterType::Week)),
            Key::Char('m') => Some(Message::Filter(FilterType::Month)),
            Key::Char('o') => Some(Message::Filter(FilterType::Once)),
            Key::Char('p') => Some(Message::Filter(FilterType::Progress)),
            Key::Char('a') => Some(Message::Filter(FilterType::All)),
            Key::Char('i') => Some(Message::Filter(FilterType::InProgress)),
            Key::Char('e') => Some(Message::Filter(FilterType::Expired)),
            Key::Char('u') => Some(Message::Filter(FilterType::UpComing)),
            Key::Char('n') => Some(Message::Filter(FilterType::NoDeadline)),
            Key::Char('r') => Some(Message::Rewrite),
            Key::Enter => Some(Message::InputModeChange(InputMode::Insert)),
            Key::Up => Some(Message::SelectPrevious),
            Key::Down => Some(Message::SelectNext),
            _ => None::<Message>,
        },
{
    match mode {
        InputMode::Insert => match key {
            Key::Esc => Some(Message::InputModeChange(InputMode::Normal)),
            Key::Enter => Some(Message::Add),
            _ => None,
        },
        InputMode::Normal => match key {
            Key::Char(c) => {
                if c == 'q' {
                    Some(Message::Quit)
                } else if c == 'd' {
                    Some(Message::Delete)
                } else if c == 'g' {
                    Some(Message::Filter(FilterType::General))
                } else if c == 'w' {
                    Some(Message::Filter(FilterType::Week))
                } else if c == 'm' {
                    Some(Message::Filter(FilterType::Month))
                } else if c == 'o' {
                    Some(Message::Filter(FilterType::Once))
                } else if c == 'p' {
                    Some(Message::Filter(FilterType::Progress))
                } else if c == 'a' {
                    Some(Message::Filter(FilterType::All))
                } else if c == 'i' {
                    Some(Message::Filter(FilterType::InProgress))
                } else if c == 'e' {
                    Some(Message::Filter(FilterType::Expired))
                } else if c == 'u' {
                    Some(Message::Filter(FilterType::UpComing))
                } else if c == 'n' {
                    Some(Message::Filter(FilterType::NoDeadline))
                } else if c == 'r' {
                    Some(Message::Rewrite)
                } else {
                    None
                }
            },
            Key::Enter => Some(Message::InputModeChange(InputMode::Insert)),
            Key::Up => Some(Message::SelectPrevious),
            Key::Down => Some(Message::SelectNext),
            _ => None,
        },
    }
}

/// The selection after jumping to the last record.
pub open spec fn spec_select_last(len: int) -> Option<usize> {
    if len > 0 {
        Some((len - 1) as usize)
    } else {
        None
    }
}

/// The selection one step down, wrapping at the end; a stale selection
/// clamps into the collection.
pub open spec fn spec_select_next(sel: Option<usize>, len: int) -> Option<usize> {
    if len == 0 {
        None
    } else {
        match sel {
            None => spec_select_last(len),
            Some(i) => if i + 1 >= len {
                Some(0usize)
            } else {
                Some((i + 1) as usize)
            },
        }
    }
}

/// The selection one step up, wrapping at the top; a stale selection
/// clamps into the collection.
pub open spec fn spec_select_prev(sel: Option<usize>, len: int) -> Option<usize> {
    if len == 0 {
        None
    } else {
        match sel {
            None => Some(0usize),
            Some(i) => if i == 0 || i >= len {
                spec_select_last(len)
            } else {
                Some((i - 1) as usize)
            },
        }
    }
}

/// The collection after adding the input line as a record: the new
/// record is appended, and a record being rewritten is dropped by its
/// creation stamp.
pub open spec fn spec_after_add(v: AppView, now: DateTime, weekday: Weekday) -> Seq<TodoView> {
    let pushed = v.todo_list.push(spec_new_todo(v.input_value, now, weekday));
    match v.update_cache {
        Some(c) => pushed.filter(|t: TodoView| t.created_at != c),
        None => pushed,
    }
}

/// A collection with pairwise-distinct creation stamps keeps them
/// distinct under any filtering, and every kept record was already
/// there.
proof fn lemma_filter_keeps_unique_stamps(l: Seq<TodoView>, p: spec_fn(TodoView) -> bool)
    requires
        unique_created(l),
    ensures
        unique_created(l.filter(p)),
        forall|x: TodoView| l.filter(p).contains(x) ==> l.contains(x),
    decreases l.len(),
{
    reveal(Seq::filter);
    if l.len() > 0 {
        let d = l.drop_last();
        assert(unique_created(d)) by {
            assert(forall|i: int| 0 <= i < d.len() ==> d[i] == l[i]);
        }
        lemma_filter_keeps_unique_stamps(d, p);
        let sub = d.filter(p);
        assert forall|x: TodoView| l.filter(p).contains(x) implies l.contains(x) by {
            let k = choose|k: int| 0 <= k < l.filter(p).len() && l.filter(p)[k] == x;
            if p(l.last()) && k == l.filter(p).len() - 1 {
                assert(l[l.len() - 1] == x);
            } else {
                assert(sub.contains(x));
                assert(d.contains(x));
                let m = choose|m: int| 0 <= m < d.len() && d[m] == x;
                assert(l[m] == x);
            }
        }
        if p(l.last()) {
            let f = l.filter(p);
            assert(f == sub.push(l.last()));
            assert forall|i: int, j: int|
                0 <= i < f.len() && 0 <= j < f.len() && i != j implies (
            #[trigger] f[i].created_at) != (#[trigger] f[j].created_at) by {
                if i < sub.len() && j < sub.len() {
                    assert(f[i] == sub[i]);
                    assert(f[j] == sub[j]);
                } else {
                    let k = if i < sub.len() {
                        i
                    } else {
                        j
                    };
                    assert(f[k] == sub[k]);
                    assert(sub.contains(sub[k]));
                    assert(d.contains(sub[k]));
                    let m = choose|m: int| 0 <= m < d.len() && d[m] == sub[k];
                    assert(l[m].created_at != l[l.len() - 1].created_at);
                }
            }
        }
    }
}

/// Adding the input line keeps creation stamps pairwise distinct,
/// provided they were distinct and the new stamp is fresh: the new
/// record is appended with the given moment's stamp, and the record
/// being replaced is removed by its own stamp.
pub proof fn lemma_add_keeps_unique_stamps(v: AppView, now: DateTime, weekday: Weekday)
    requires
        unique_created(v.todo_list),
        forall|k: int| 0 <= k < v.todo_list.len() ==> (#[trigger] v.todo_list[
            k].created_at) != crate::date::enc_datetime(now, ' '),
    ensures
        unique_created(spec_after_add(v, now, weekday)),
{
    let nt = spec_new_todo(v.input_value, now, weekday);
    let pushed = v.todo_list.push(nt);
    assert(unique_created(pushed)) by {
        assert forall|i: int, j: int|
            0 <= i < pushed.len() && 0 <= j < pushed.len() && i != j implies (
        #[trigger] pushed[i].created_at) != (#[trigger] pushed[j].created_at) by {
            if i < v.todo_list.len() && j < v.todo_list.len() {
                assert(pushed[i] == v.todo_list[i]);
                assert(pushed[j] == v.todo_list[j]);
            } else {
                let k = if i < v.todo_list.len() {
                    i
                } else {
                    j
                };
                assert(pushed[k] == v.todo_list[k]);
            }
        }
    }
    match v.update_cache {
        Some(c) => {
            lemma_filter_keeps_unique_stamps(pushed, |t: TodoView| t.created_at != c);
        },
        None => {
        },
    }
}

impl App {
    /// One step of the interactive loop: applies a message to the
    /// state and hands back the message to process next and what the
    /// shell must do. Persisting always makes every record visible
    /// again first; a save stamps the sync state with the given
    /// moment; quitting persists without stamping. The selection counts
    /// rows of the whole collection when deleting, and visible rows
    /// when picking a record to rewrite, as the display does.
    pub fn update(&mut self, msg: Message, now: &DateTime, weekday: Weekday) -> (r: (
        Option<Message>,
        AppEffect,
    ))
        requires
            crate::date::valid_datetime(*now),
            wf_app(old(self)@),
        ensures
            match msg {
                Message::Add => r == (Some(Message::Save), AppEffect::Nothing)
                    && (old(self)@.input_value.len() == 0 ==> final(self)@ == old(self)@)
                    && (old(self)@.input_value.len() > 0 ==> final(self)@ == (AppView {
                    todo_list: spec_after_add(old(self)@, *now, weekday),
                    input_value: Seq::<char>::empty(),
                    update_cache: None::<Seq<char>>,
                    selected: spec_select_last(spec_after_add(old(self)@, *now,
                        weekday).len() as int),
                    ..old(self)@
                })),
                Message::Save => r == (None::<Message>, AppEffect::Persist) && final(
                    self)@ == (AppView {
                    todo_list: spec_filtered(old(self)@.todo_list, FilterType::All),
                    sync_state: SyncStateView {
                        last_sync_kind: SyncAction::LocalSave,
                        last_save_at: *now,
                        ..old(self)@.sync_state
                    },
                    ..old(self)@
                }) && (datetime_lt(old(self)@.sync_state.last_save_at, *now)
                    ==> datetime_lt(old(self)@.sync_state.last_save_at, final(
                    self)@.sync_state.last_save_at)),
                Message::Delete => r == (Some(Message::Save), AppEffect::Nothing)
                    && match old(self)@.selected {
                    Some(i) => if i < old(self)@.todo_list.len() {
                        final(self)@ == (AppView {
                            todo_list: old(self)@.todo_list.remove(i as int),
                            ..old(self)@
                        })
                    } else {
                        final(self)@ == old(self)@
                    },
                    None => final(self)@ == old(self)@,
                },
                Message::Rewrite => r == (None::<Message>, AppEffect::Nothing) && match
                    old(self)@.selected {
                    Some(i) => if nth_visible_from(old(self)@.todo_list, 0, i as int)
                        >= 0 {
                        final(self)@ == (AppView {
                            input_value: spec_rewrite_text(old(self)@.todo_list[
                                nth_visible_from(old(self)@.todo_list, 0, i as int)]),
                            input_mode: InputMode::Insert,
                            update_cache: Some(old(self)@.todo_list[nth_visible_from(old(
                                self)@.todo_list, 0, i as int)].created_at),
                            ..old(self)@
                        })
                    } else {
                        final(self)@ == old(self)@
                    },
                    None => final(self)@ == old(self)@,
                },
                Message::Filter(ft) => r == (None::<Message>, AppEffect::Nothing) && final(
                    self)@ == (AppView {
                    todo_list: spec_filtered(old(self)@.todo_list, ft),
                    ..old(self)@
                }),
                Message::InputModeChange(m) => r == (None::<Message>, AppEffect::Nothing)
                    && (m == InputMode::Normal ==> final(self)@ == (AppView {
                    input_mode: m,
                    input_value: Seq::<char>::empty(),
                    update_cache: None::<Seq<char>>,
                    ..old(self)@
                })) && (m == InputMode::Insert ==> final(self)@ == (AppView {
                    input_mode: m,
                    ..old(self)@
                })),
                Message::Quit => r == (None::<Message>, AppEffect::Persist) && final(
                    self)@ == (AppView {
                    todo_list: spec_filtered(old(self)@.todo_list, FilterType::All),
                    exit: true,
                    ..old(self)@
                }),
                Message::SelectPrevious => r == (None::<Message>, AppEffect::Nothing)
                    && final(self)@ == (AppView {
                    selected: spec_select_prev(old(self)@.selected, old(
                        self)@.todo_list.len() as int),
                    ..old(self)@
                }),
                Message::SelectNext => r == (None::<Message>, AppEffect::Nothing) && final(
                    self)@ == (AppView {
                    selected: spec_select_next(old(self)@.selected, old(
                        self)@.todo_list.len() as int),
                    ..old(self)@
                }),
            },
    {
        match msg {
            Message::Add => {
                let n = self.input_value.as_str().unicode_len();
                if n > 0 {
                    let todo = Todo::new(self.input_value.as_str(), now, weekday);
                    self.todo_list.push(todo);
                    proof {
                        assert(views_of(self.todo_list@) =~= old(self)@.todo_list.push(
                            spec_new_todo(old(self)@.input_value, *now, weekday)));
                    }
                    let cache = match &self.update_cache {
                        Some(c) => Some(c.clone()),
                        None => None,
                    };
                    if let Some(c) = cache {
                        retain_not_created(&mut self.todo_list, c.as_str());
                        self.update_cache = None;
                    }
                    self.input_value = String::new();
                    let len = self.todo_list.len();
                    self.selected = if len > 0 {
                        Some(len - 1)
                    } else {
                        None
                    };
                }
                (Some(Message::Save), AppEffect::Nothing)
            },
            Message::Save => {
                reset_hidden_flags(&mut self.todo_list);
                self.sync_state.last_save_at = *now;
                self.sync_state.last_sync_kind = SyncAction::LocalSave;
                (None, AppEffect::Persist)
            },
            Message::Delete => {
                if let Some(i) = self.selected {
                    if i < self.todo_list.len() {
                        self.todo_list.remove(i);
                        proof {
                            assert(views_of(self.todo_list@) =~= old(
                                self)@.todo_list.remove(i as int));
                        }
                    }
                }
                (Some(Message::Save), AppEffect::Nothing)
            },
            Message::Rewrite => {
                if let Some(i) = self.selected {
                    if let Some(j) = nth_visible(&self.todo_list, i) {
                        proof {
                            assert(wf_todo(old(self)@.todo_list[j as int]));
                        }
                        let value = rewrite_text(&self.todo_list[j]);
                        let created = self.todo_list[j].created_at.clone();
                        self.input_value = value;
                        self.input_mode = InputMode::Insert;
                        self.update_cache = Some(created);
                        proof {
                            let jj = nth_visible_from(old(self)@.todo_list, 0, i as int);
                            assert(old(self)@.todo_list[jj]
                                == old(self).todo_list@[jj]@);
                        }
                    }
                }
                (None, AppEffect::Nothing)
            },
            Message::Filter(ft) => {
                set_hidden_flags(&mut self.todo_list, &ft);
                (None, AppEffect::Nothing)
            },
            Message::InputModeChange(m) => {
                if m == InputMode::Normal {
                    self.input_value = String::new();
                    self.update_cache = None;
                }
                self.input_mode = m;
                (None, AppEffect::Nothing)
            },
            Message::Quit => {
                reset_hidden_flags(&mut self.todo_list);
                self.exit = true;
                (None, AppEffect::Persist)
            },
            Message::SelectPrevious => {
                let len = self.todo_list.len();
                self.selected = if len == 0 {
                    None
                } else {
                    match self.selected {
                        None => Some(0),
                        Some(i) => if i == 0 || i >= len {
                            Some(len - 1)
                        } else {
                            Some(i - 1)
                        },
                    }
                };
                (None, AppEffect::Nothing)
            },
            Message::SelectNext => {
                let len = self.todo_list.len();
                self.selected = if len == 0 {
                    None
                } else {
                    match self.selected {
                        None => Some(len - 1),
                        Some(i) => if i >= len - 1 {
                            Some(0)
                        } else {
                            Some(i + 1)
                        },
                    }
                };
                (None, AppEffect::Nothing)
            },
        }
    }
}

} // verus!
