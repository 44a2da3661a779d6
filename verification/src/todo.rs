//! Task records: free text, a creation stamp, a deadline kind and the
//! state derived from it.
//!
//! A task is entered as free text with an optional suffix: after the
//! first `-`, a weekday name, a day of the month or a calendar date;
//! after the first `@`, a progress note. The creation stamp doubles as
//! the record's identity within a collection. The state is never
//! authoritative: it is recomputed from the kind and the current date.

use vstd::prelude::*;

use crate::chars::spec_parse_u32;
use crate::chars::parse_u32;
use crate::chars::enc_u32;
use crate::chars::push_u32;
use crate::date::Date;
use crate::date::DateTime;
use crate::date::Weekday;
use crate::date::date_lt;
use crate::date::enc_date;
use crate::date::enc_datetime;
use crate::date::push_date;
use crate::date::spec_parse_date;
use crate::date::spec_weekday_of;
use crate::date::valid_date;
use crate::date::valid_datetime;
use crate::date::weekday_tag;

verus! {

/// Where a task stands relative to its deadline.
#[derive(Clone, Copy, Debug, PartialEq, Eq, Structural)]
pub enum TodoState {
    NoDeadline,
    InProgress,
    UpComing,
    Expired,
}

impl Default for TodoState {
    /// A task without a deadline has no state to derive.
    fn default() -> (r: Self)
        ensures
            r == TodoState::NoDeadline,
    {
        TodoState::NoDeadline
    }
}

/// The label of each state, as displayed and as persisted.
pub open spec fn state_tag(s: TodoState) -> Seq<char> {
    match s {
        TodoState::NoDeadline => "NoDeadline"@,
        TodoState::InProgress => "InProgress"@,
        TodoState::UpComing => "UpComing"@,
        TodoState::Expired => "Expired"@,
    }
}

impl TodoState {
    /// The display label of the state.
    pub fn print_info(&self) -> (r: String)
        ensures
            r@ == state_tag(*self),
    {
        match self {
            TodoState::NoDeadline => String::from_str("NoDeadline"),
            TodoState::InProgress => String::from_str("InProgress"),
            TodoState::UpComing => String::from_str("UpComing"),
            TodoState::Expired => String::from_str("Expired"),
        }
    }
}

/// The deadline kind of a task.
#[derive(Debug, Clone)]
pub enum TodoKind {
    /// Plain task, no deadline.
    General,
    /// Long-running task with a free-text progress note.
    Progress(String),
    /// Due every week on the given day.
    Week(Weekday),
    /// Due every month on the given day of the month.
    Month(u32),
    /// Due once, on the given date.
    Once(Date),
}

/// Mathematical image of a [`TodoKind`]: the note as a character
/// sequence, the other payloads as plain values.
pub enum KindView {
    General,
    Progress(Seq<char>),
    Week(Weekday),
    Month(u32),
    Once(Date),
}

impl View for TodoKind {
    type V = KindView;

    open spec fn view(&self) -> KindView {
        match self {
            TodoKind::General => KindView::General,
            TodoKind::Progress(s) => KindView::Progress(s@),
            TodoKind::Week(w) => KindView::Week(*w),
            TodoKind::Month(m) => KindView::Month(*m),
            TodoKind::Once(d) => KindView::Once(*d),
        }
    }
}

impl Default for TodoKind {
    /// A task whose suffix names no deadline is a plain task.
    fn default() -> (r: Self)
        ensures
            r@ == KindView::General,
    {
        TodoKind::General
    }
}

impl PartialEq for TodoKind {
    /// Two kinds are equal when their payloads are.
    fn eq(&self, other: &TodoKind) -> (r: bool) {
        match (self, other) {
            (TodoKind::General, TodoKind::General) => true,
            (TodoKind::Progress(a), TodoKind::Progress(b)) => *a == *b,
            (TodoKind::Week(a), TodoKind::Week(b)) => a == b,
            (TodoKind::Month(a), TodoKind::Month(b)) => a == b,
            (TodoKind::Once(a), TodoKind::Once(b)) => a == b,
            _ => false,
        }
    }
}

impl vstd::std_specs::cmp::PartialEqSpecImpl for TodoKind {
    open spec fn obeys_eq_spec() -> bool {
        true
    }

    open spec fn eq_spec(&self, other: &TodoKind) -> bool {
        self@ == other@
    }
}

/// A deadline whose payload the library can always print and persist:
/// a one-time date is a real calendar date.
pub open spec fn wf_kind(k: KindView) -> bool {
    match k {
        KindView::Once(d) => valid_date(d),
        _ => true,
    }
}

/// The display label of a kind: its name and its payload.
pub open spec fn kind_info(k: KindView) -> Seq<char> {
    match k {
        KindView::General => "General"@,
        KindView::Progress(s) => "Prog: "@ + s,
        KindView::Week(w) => "Week: "@ + weekday_tag(w),
        KindView::Month(m) => "Month: "@ + enc_u32(m as int),
        KindView::Once(d) => "Once: "@ + enc_date(d),
    }
}

impl TodoKind {
    /// The display label of the kind.
    pub fn print_info(&self) -> (r: String)
        requires
            wf_kind(self@),
        ensures
            r@ == kind_info(self@),
    {
        match self {
            TodoKind::General => String::from_str("General"),
            TodoKind::Progress(s) => {
                let mut out = String::from_str("Prog: ");
                out.append(s.as_str());
                out
            },
            TodoKind::Week(w) => {
                let mut out = String::from_str("Week: ");
                out.append(w.name());
                out
            },
            TodoKind::Month(m) => {
                let mut out = String::from_str("Month: ");
                push_u32(&mut out, *m);
                out
            },
            TodoKind::Once(d) => {
                let mut out = String::from_str("Once: ");
                push_date(&mut out, d);
                out
            },
        }
    }
}

/// One task record.
#[derive(Debug)]
pub struct Todo {
    /// The free text of the task.
    pub text: String,
    /// Creation stamp, `YYYY-MM-DD HH:MM:SS`; the record's identity
    /// within a collection.
    pub created_at: String,
    pub kind: TodoKind,
    pub state: TodoState,
    /// Display filtering only; reset before persisting.
    pub is_hidden: bool,
}

/// Mathematical image of a [`Todo`].
pub struct TodoView {
    pub text: Seq<char>,
    pub created_at: Seq<char>,
    pub kind: KindView,
    pub state: TodoState,
    pub is_hidden: bool,
}

impl View for Todo {
    type V = TodoView;

    open spec fn view(&self) -> TodoView {
        TodoView {
            text: self.text@,
            created_at: self.created_at@,
            kind: self.kind@,
            state: self.state,
            is_hidden: self.is_hidden,
        }
    }
}

pub open spec fn wf_todo(t: TodoView) -> bool {
    wf_kind(t.kind)
}

impl PartialEq for Todo {
    /// Two records are equal when all their fields are.
    fn eq(&self, other: &Todo) -> (r: bool) {
        self.text == other.text && self.created_at == other.created_at && self.kind
            == other.kind && self.state == other.state && self.is_hidden == other.is_hidden
    }
}

impl vstd::std_specs::cmp::PartialEqSpecImpl for Todo {
    open spec fn obeys_eq_spec() -> bool {
        true
    }

    open spec fn eq_spec(&self, other: &Todo) -> bool {
        self@ == other@
    }
}

impl Todo {
    /// Copies the record field by field.
    pub fn duplicate(&self) -> (r: Todo)
        ensures
            r@ == self@,
    {
        Todo {
            text: self.text.clone(),
            created_at: self.created_at.clone(),
            kind: match &self.kind {
                TodoKind::General => TodoKind::General,
                TodoKind::Progress(s) => TodoKind::Progress(s.clone()),
                TodoKind::Week(w) => TodoKind::Week(*w),
                TodoKind::Month(m) => TodoKind::Month(*m),
                TodoKind::Once(d) => TodoKind::Once(*d),
            },
            state: self.state,
            is_hidden: self.is_hidden,
        }
    }
}

/// The whitespace the input grammar strips at the ends of the text and
/// of the suffix.
pub open spec fn is_space(c: char) -> bool {
    c == ' ' || c == '\t' || c == '\n' || c == '\r'
}

/// Index of the first non-space character at or after `i`; the length
/// if there is none.
pub open spec fn skip_spaces(s: Seq<char>, i: int) -> int
    decreases s.len() - i,
{
    if i < 0 || i >= s.len() {
        s.len() as int
    } else if is_space(s[i]) {
        skip_spaces(s, i + 1)
    } else {
        i
    }
}

/// End of the text once trailing spaces before `j` are dropped; zero if
/// only spaces stand there.
pub open spec fn rskip_spaces(s: Seq<char>, j: int) -> int
    decreases j,
{
    if j <= 0 || j > s.len() {
        0
    } else if is_space(s[j - 1]) {
        rskip_spaces(s, j - 1)
    } else {
        j
    }
}

/// The text with leading and trailing spaces removed.
pub open spec fn spec_trim(s: Seq<char>) -> Seq<char> {
    let i = skip_spaces(s, 0);
    let j = rskip_spaces(s, s.len() as int);
    if i < j {
        s.subrange(i, j)
    } else {
        Seq::empty()
    }
}

proof fn lemma_skip_spaces_bounds(s: Seq<char>, i: int)
    requires
        0 <= i <= s.len(),
    ensures
        i <= skip_spaces(s, i) <= s.len(),
    decreases s.len() - i,
{
    if i < s.len() && is_space(s[i]) {
        lemma_skip_spaces_bounds(s, i + 1);
    }
}

proof fn lemma_rskip_spaces_bounds(s: Seq<char>, j: int)
    requires
        0 <= j <= s.len(),
    ensures
        0 <= rskip_spaces(s, j) <= j,
    decreases j,
{
    if j > 0 && is_space(s[j - 1]) {
        lemma_rskip_spaces_bounds(s, j - 1);
    }
}

/// The right scan stops at zero or just past a non-space character.
proof fn lemma_rskip_spaces_stop(s: Seq<char>, j: int)
    requires
        0 <= j <= s.len(),
    ensures
        rskip_spaces(s, j) == 0 || !is_space(s[rskip_spaces(s, j) - 1]),
    decreases j,
{
    if j > 0 && is_space(s[j - 1]) {
        lemma_rskip_spaces_stop(s, j - 1);
    }
}

fn is_space_exec(c: char) -> (r: bool)
    ensures
        r == is_space(c),
{
    c == ' ' || c == '\t' || c == '\n' || c == '\r'
}

/// Strips leading and trailing spaces.
pub fn trim(s: &str) -> (r: &str)
    requires
        s@.len() <= usize::MAX,
    ensures
        r@ == spec_trim(s@),
{
    let n = s.unicode_len();
    let mut i: usize = 0;
    while i < n && is_space_exec(s.get_char(i))
        invariant
            0 <= i <= n,
            n == s@.len(),
            skip_spaces(s@, 0) == skip_spaces(s@, i as int),
        decreases n - i,
    {
        i = i + 1;
    }
    proof {
        assert(skip_spaces(s@, i as int) == i as int);
    }
    let mut j: usize = n;
    while j > i && is_space_exec(s.get_char(j - 1))
        invariant
            i <= j <= n,
            n == s@.len(),
            skip_spaces(s@, 0) == i as int,
            rskip_spaces(s@, n as int) == rskip_spaces(s@, j as int),
            forall|k: int| j <= k < n ==> is_space(#[trigger] s@[k]),
        decreases j,
    {
        j = j - 1;
    }
    if j > i {
        proof {
            assert(rskip_spaces(s@, j as int) == j as int);
        }
        s.substring_char(i, j)
    } else {
        proof {
            assert(j == i);
            let jj = rskip_spaces(s@, n as int);
            lemma_rskip_spaces_bounds(s@, n as int);
            lemma_rskip_spaces_stop(s@, n as int);
            if jj > i as int {
                assert(is_space(s@[jj - 1]));
            }
            assert(spec_trim(s@) =~= Seq::<char>::empty());
        }
        s.substring_char(0, 0)
    }
}

/// Index of the first occurrence of `c` at or after `i`; negative if
/// there is none.
pub open spec fn find_from(s: Seq<char>, c: char, i: int) -> int
    decreases s.len() - i,
{
    if i < 0 || i >= s.len() {
        -1
    } else if s[i] == c {
        i
    } else {
        find_from(s, c, i + 1)
    }
}

/// First occurrence of a character, if any.
pub fn find_char(s: &str, c: char) -> (r: Option<usize>)
    requires
        s@.len() <= usize::MAX,
    ensures
        r is Some ==> r.unwrap() == find_from(s@, c, 0) && r.unwrap() < s@.len(),
        r is None ==> find_from(s@, c, 0) == -1,
{
    let n = s.unicode_len();
    let mut i: usize = 0;
    while i < n
        invariant
            0 <= i <= n,
            n == s@.len(),
            find_from(s@, c, 0) == find_from(s@, c, i as int),
        decreases n - i,
    {
        if s.get_char(i) == c {
            return Some(i);
        }
        i = i + 1;
    }
    None
}

/// The deadline a suffix names: a weekday, a day of the month between
/// one and thirty-one, or a calendar date; nothing otherwise.
pub open spec fn suffix_kind(st: Seq<char>) -> Option<KindView> {
    if spec_weekday_of(st) is Some {
        Some(KindView::Week(spec_weekday_of(st).unwrap()))
    } else if spec_parse_u32(st) is Some && 0 < spec_parse_u32(st).unwrap() < 32 {
        Some(KindView::Month(spec_parse_u32(st).unwrap()))
    } else if spec_parse_date(st) is Some {
        Some(KindView::Once(spec_parse_date(st).unwrap()))
    } else {
        None
    }
}

/// How an input line splits into task text and deadline kind: the part
/// after the first `-` is tried as a deadline, the part after the first
/// `@` as a progress note; both sides are trimmed, and an input whose
/// suffix names nothing stays one plain task.
pub open spec fn spec_input_parse(s: Seq<char>) -> (Seq<char>, KindView) {
    let dash = find_from(s, '-', 0);
    let at = find_from(s, '@', 0);
    if dash >= 0 {
        let text = s.subrange(0, dash);
        let suffix = s.subrange(dash + 1, s.len() as int);
        if text.len() > 0 && suffix.len() > 0 {
            match suffix_kind(spec_trim(suffix)) {
                Some(k) => (spec_trim(text), k),
                None => (spec_trim(s), KindView::General),
            }
        } else {
            (spec_trim(s), KindView::General)
        }
    } else if at >= 0 {
        let text = s.subrange(0, at);
        let suffix = s.subrange(at + 1, s.len() as int);
        if text.len() > 0 && suffix.len() > 0 {
            (spec_trim(text), KindView::Progress(spec_trim(suffix)))
        } else {
            (spec_trim(s), KindView::General)
        }
    } else {
        (spec_trim(s), KindView::General)
    }
}

/// The state a kind derives from the current date: a one-time task is
/// in progress on its day, expired after it, upcoming before it; weekly
/// and monthly tasks are in progress on their day and upcoming
/// otherwise; plain and progress tasks have no deadline to derive. The
/// state is a pure function of the kind and the current date, never
/// carried over.
pub open spec fn spec_state_of(kind: KindView, today: Date, weekday: Weekday) -> TodoState {
    match kind {
        KindView::Once(d) => if d == today {
            TodoState::InProgress
        } else if date_lt(d, today) {
            TodoState::Expired
        } else {
            TodoState::UpComing
        },
        KindView::Week(w) => if w == weekday {
            TodoState::InProgress
        } else {
            TodoState::UpComing
        },
        KindView::Month(m) => if m == today.day {
            TodoState::InProgress
        } else {
            TodoState::UpComing
        },
        _ => TodoState::NoDeadline,
    }
}

/// Creation stamps are pairwise distinct within a collection: the
/// stamp is the record's identity for removal and replacement.
pub open spec fn unique_created(l: Seq<TodoView>) -> bool {
    forall|i: int, j: int| 0 <= i < l.len() && 0 <= j < l.len() && i != j ==> (
    #[trigger] l[i].created_at) != (#[trigger] l[j].created_at)
}

/// The record a fresh input line becomes at the given moment.
pub open spec fn spec_new_todo(input: Seq<char>, now: DateTime, weekday: Weekday) -> TodoView {
    let parsed = spec_input_parse(input);
    TodoView {
        text: parsed.0,
        created_at: enc_datetime(now, ' '),
        kind: parsed.1,
        state: spec_state_of(parsed.1, now.date, weekday),
        is_hidden: false,
    }
}

impl Todo {
    /// Splits an input line into the task text and the deadline kind
    /// its suffix names.
    pub fn input_parse(input: &str) -> (r: (&str, TodoKind))
        requires
            input@.len() <= usize::MAX,
        ensures
            r.0@ == spec_input_parse(input@).0,
            r.1@ == spec_input_parse(input@).1,
    {
        let n = input.unicode_len();
        if let Some(k) = find_char(input, '-') {
            let text = input.substring_char(0, k);
            let suffix = input.substring_char(k + 1, n);
            if text.unicode_len() > 0 && suffix.unicode_len() > 0 {
                let st = trim(suffix);
                if let Some(w) = Weekday::parse(st) {
                    return (trim(text), TodoKind::Week(w));
                }
                if let Some(d) = parse_u32(st) {
                    if 0 < d && d < 32 {
                        return (trim(text), TodoKind::Month(d));
                    }
                }
                if let Some(d) = Date::parse(st) {
                    return (trim(text), TodoKind::Once(d));
                }
                (trim(input), TodoKind::General)
            } else {
                (trim(input), TodoKind::General)
            }
        } else if let Some(k) = find_char(input, '@') {
            let text = input.substring_char(0, k);
            let suffix = input.substring_char(k + 1, n);
            if text.unicode_len() > 0 && suffix.unicode_len() > 0 {
                (trim(text), TodoKind::Progress(String::from_str(trim(suffix))))
            } else {
                (trim(input), TodoKind::General)
            }
        } else {
            (trim(input), TodoKind::General)
        }
    }

    /// Recomputes the state from the kind and the current date; every
    /// other field stays.
    pub fn state_check(&mut self, today: &Date, weekday: Weekday)
        ensures
            final(self)@.text == old(self)@.text,
            final(self)@.created_at == old(self)@.created_at,
            final(self)@.kind == old(self)@.kind,
            final(self)@.is_hidden == old(self)@.is_hidden,
            final(self)@.state == spec_state_of(old(self)@.kind, *today, weekday),
    {
        match &self.kind {
            TodoKind::Once(d) => {
                let dd = *d;
                if dd == *today {
                    self.state = TodoState::InProgress;
                } else if dd.lt(today) {
                    self.state = TodoState::Expired;
                } else {
                    self.state = TodoState::UpComing;
                }
            },
            TodoKind::Week(w) => {
                let ww = *w;
                if ww == weekday {
                    self.state = TodoState::InProgress;
                } else {
                    self.state = TodoState::UpComing;
                }
            },
            TodoKind::Month(m) => {
                let mm = *m;
                if mm == today.day {
                    self.state = TodoState::InProgress;
                } else {
                    self.state = TodoState::UpComing;
                }
            },
            _ => {
                self.state = TodoState::NoDeadline;
            },
        }
    }

    /// Builds a record from an input line: the text and kind come from
    /// the suffix grammar, the creation stamp from the given moment,
    /// and the state from the current date.
    pub fn new(input: &str, now: &DateTime, weekday: Weekday) -> (r: Todo)
        requires
            input@.len() <= usize::MAX,
            valid_datetime(*now),
        ensures
            r@ == spec_new_todo(input@, *now, weekday),
    {
        let (text, kind) = Self::input_parse(input);
        let mut todo = Todo {
            text: String::from_str(text),
            created_at: now.to_text(' '),
            kind,
            state: TodoState::NoDeadline,
            is_hidden: false,
        };
        todo.state_check(&now.date, weekday);
        todo
    }

    /// Whether the record can always be printed and persisted.
    pub fn is_wf(&self) -> (r: bool)
        ensures
            r == wf_todo(self@),
    {
        match &self.kind {
            TodoKind::Once(d) => d.is_valid(),
            _ => true,
        }
    }

    /// Makes the record visible again; every other field stays.
    pub fn reset_hidden_flag(&mut self)
        ensures
            final(self)@ == (TodoView { is_hidden: false, ..old(self)@ }),
    {
        self.is_hidden = false;
    }
}

} // verus!
