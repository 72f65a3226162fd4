//! The picker: a list of instances that a fuzzy search narrows down, with a
//! selection that the keys move, and the text of each row.
use nucleo::pattern::{Atom, AtomKind, CaseMatching, Normalization};
use vstd::prelude::*;
use vstd::utf8::encode_utf8;

use crate::order::{is_stable_order, precedes, stable_order};
use crate::session::{shown_name, shown_name_of, Instance, Status};
use crate::text::{
    chars_of, copy_str, has_prefix, pad_right, pad_to, pop_char, push_char, push_range, starts_with,
};

verus! {

// ---------------------------------------------------------------------------
// Fuzzy matching
// ---------------------------------------------------------------------------

/// The score that nucleo's fuzzy matcher gives `haystack` for `pattern`
/// (`None`: no match; higher: better).
pub uninterp spec fn fuzzy_score(pattern: Seq<char>, haystack: Seq<char>) -> Option<u16>;

/// Scores `haystack` against the search text `pattern` with nucleo: a fresh
/// `Matcher` with the default configuration, and a fuzzy `Atom` with smart
/// case matching, smart normalization and whitespace not escaped. Claimed:
/// the score depends on the two texts alone. `Matcher::fuzzy_match` panics
/// when the haystack has more than `u32::MAX` units (bytes or graphemes,
/// never more than its UTF-8 bytes), which `requires` leaves out.
#[verifier::external_body]
fn score_match(pattern: &str, haystack: &str) -> (r: Option<u16>)
    requires
        encode_utf8(haystack@).len() <= u32::MAX,
    ensures
        r == fuzzy_score(pattern@, haystack@),
{
    let mut matcher = nucleo::Matcher::new(nucleo::Config::DEFAULT);
    let atom = Atom::new(pattern, CaseMatching::Smart, Normalization::Smart, AtomKind::Fuzzy, false);
    let mut buf = Vec::new();
    atom.score(nucleo::Utf32Str::new(haystack, &mut buf), &mut matcher)
}

/// Item `i` ranks before item `j`: a higher score, or the same score and an
/// earlier position.
pub open spec fn ranks_before(scores: Seq<Option<u16>>, i: int, j: int) -> bool {
    scores[i]->0 > scores[j]->0 || (scores[i]->0 == scores[j]->0 && i < j)
}

/// `r` lists each position that has a score once, best score first, and
/// positions with equal scores in their order.
pub open spec fn is_score_ranking(scores: Seq<Option<u16>>, r: Seq<usize>) -> bool {
    &&& forall|k: int| 0 <= k < r.len() ==> #[trigger] r[k] < scores.len() && scores[r[k] as int] is Some
    &&& forall|i: usize| i < scores.len() && scores[i as int] is Some ==> #[trigger] r.contains(i)
    &&& forall|k: int, l: int|
        0 <= k < l < r.len() ==> ranks_before(scores, #[trigger] r[k] as int, #[trigger] r[l] as int)
}

/// The positions that have a score, best score first; equal scores keep
/// their order.
pub fn rank_by_score(scores: &Vec<Option<u16>>) -> (r: Vec<usize>)
    ensures
        is_score_ranking(scores@, r@),
{
    let n = scores.len();
    let mut matched: Vec<usize> = Vec::new();
    let mut keys: Vec<u128> = Vec::new();
    let mut i: usize = 0;
    while i < n
        invariant
            i <= n == scores@.len(),
            matched@.len() == keys@.len(),
            forall|k: int| 0 <= k < matched@.len() ==> #[trigger] matched@[k] < i,
            forall|k: int|
                0 <= k < matched@.len() ==> scores@[#[trigger] matched@[k] as int] is Some,
            forall|k: int, l: int|
                0 <= k < l < matched@.len() ==> #[trigger] matched@[k] < #[trigger] matched@[l],
            forall|k: int|
                0 <= k < matched@.len() ==> #[trigger] keys@[k] == 0xffff - scores@[
                    matched@[k] as int
                ]->0,
            forall|j: usize| j < i && scores@[j as int] is Some ==> #[trigger] matched@.contains(j),
        decreases n - i,
    {
        match scores[i] {
            Some(s) => {
                let ghost before = matched@;
                matched.push(i);
                keys.push((0xffff - s) as u128);
                assert forall|j: usize| j < i + 1 && scores@[j as int] is Some implies #[trigger] matched@.contains(
                    j,
                ) by {
                    if j == i {
                        assert(matched@[before.len() as int] == i);
                    } else {
                        assert(before.contains(j));
                        let w = choose|w: int| 0 <= w < before.len() && before[w] == j;
                        assert(matched@[w] == j);
                    }
                }
            },
            None => {},
        }
        i = i + 1;
    }
    let q = stable_order(&keys);
    let m = matched.len();
    let mut r: Vec<usize> = Vec::new();
    let mut k: usize = 0;
    while k < m
        invariant
            k <= m == matched@.len() == keys@.len() == q@.len(),
            is_stable_order(keys@, q@),
            r@.len() == k,
            forall|t: int| 0 <= t < k ==> #[trigger] r@[t] == matched@[q@[t] as int],
        decreases m - k,
    {
        r.push(matched[q[k]]);
        k = k + 1;
    }
    assert forall|t: int| 0 <= t < r@.len() implies #[trigger] r@[t] < scores@.len() && scores@[r@[t] as int] is Some by {
        assert(q@[t] < m);
    }
    assert forall|j: usize| j < scores@.len() && scores@[j as int] is Some implies #[trigger] r@.contains(j) by {
        assert(matched@.contains(j));
        let w = choose|w: int| 0 <= w < matched@.len() && matched@[w] == j;
        assert(q@.contains(w as usize));
        let t = choose|t: int| 0 <= t < q@.len() && q@[t] == w as usize;
        assert(r@[t] == j);
    }
    assert forall|a: int, b: int| 0 <= a < b < r@.len() implies ranks_before(
        scores@,
        #[trigger] r@[a] as int,
        #[trigger] r@[b] as int,
    ) by {
        assert(precedes(keys@, q@[a] as int, q@[b] as int));
        assert(q@[a] < m && q@[b] < m);
        if q@[a] < q@[b] {
            assert(matched@[q@[a] as int] < matched@[q@[b] as int]);
        }
    }
    r
}

// ---------------------------------------------------------------------------
// Text of the instances
// ---------------------------------------------------------------------------

/// The text that the search is matched against: the shown name, a space and
/// the working directory.
pub open spec fn display_of(i: Instance) -> Seq<char> {
    shown_name(i) + seq![' '] + i.cwd@
}

/// The text that the search is matched against for an instance.
pub fn display_text(inst: &Instance) -> (r: String)
    ensures
        r@ == display_of(*inst),
{
    let mut r = shown_name_of(inst);
    r.append(" ");
    r.append(inst.cwd.as_str());
    proof {
        reveal_strlit(" ");
    }
    assert(r@ =~= display_of(*inst));
    r
}

/// The colour in which a status is shown.
#[derive(Debug, Clone, Copy, PartialEq, Eq, Structural)]
pub enum Color {
    Green,
    Yellow,
    Cyan,
    Magenta,
    DarkGray,
}

/// The colour in which a status is shown.
pub fn status_color(status: &Status) -> (c: Color)
    ensures
        c == match *status {
            Status::Idle => Color::Green,
            Status::Busy => Color::Yellow,
            Status::Asking => Color::Cyan,
            Status::Waiting => Color::Magenta,
            Status::Unknown => Color::DarkGray,
        },
{
    match status {
        Status::Idle => Color::Green,
        Status::Busy => Color::Yellow,
        Status::Asking => Color::Cyan,
        Status::Waiting => Color::Magenta,
        Status::Unknown => Color::DarkGray,
    }
}

/// `path` as it is shown: with the home directory written as `~` when the
/// path starts with it.
pub open spec fn shortened(path: Seq<char>, home: Option<Seq<char>>) -> Seq<char> {
    match home {
        Some(h) => if has_prefix(path, h) {
            seq!['~'] + path.skip(h.len() as int)
        } else {
            path
        },
        None => path,
    }
}

/// `path` with a leading home directory replaced by `~`; `home` is the home
/// directory, if there is one.
pub fn shorten_path(path: &str, home: Option<&str>) -> (r: String)
    ensures
        r@ == shortened(path@, match home {
            Some(h) => Some(h@),
            None => None,
        }),
{
    match home {
        Some(h) => {
            let p = chars_of(path);
            let hc = chars_of(h);
            if starts_with(&p, &hc) {
                let mut r = String::new();
                push_char(&mut r, '~');
                push_range(&mut r, &p, hc.len(), p.len());
                assert(r@ =~= seq!['~'] + path@.skip(h@.len() as int));
                r
            } else {
                copy_str(path)
            }
        },
        None => copy_str(path),
    }
}

/// The three texts of a row of the list, and the colour of the first.
#[derive(Debug)]
pub struct ListRow {
    pub status: String,
    pub name: String,
    pub path: String,
    pub color: Color,
}

/// The width to which names are padded in the list.
pub const NAME_WIDTH: usize = 20;

/// The row that shows an instance: its status tag and a space, its name
/// padded to `NAME_WIDTH` characters, and its shortened working directory.
pub fn list_row(inst: &Instance, home: Option<&str>) -> (r: ListRow)
    ensures
        r.status@ == inst.status.label_text() + seq![' '],
        r.name@ == pad_right(shown_name(*inst), NAME_WIDTH as nat),
        r.path@ == shortened(inst.cwd@, match home {
            Some(h) => Some(h@),
            None => None,
        }),
        r.color == status_color_of(inst.status),
{
    let mut status = copy_str(inst.status.label());
    push_char(&mut status, ' ');
    let label = shown_name_of(inst);
    let name = pad_to(label.as_str(), NAME_WIDTH);
    let path = shorten_path(inst.cwd.as_str(), home);
    ListRow { status, name, path, color: status_color(&inst.status) }
}

/// The colour in which a status is shown.
pub open spec fn status_color_of(s: Status) -> Color {
    match s {
        Status::Idle => Color::Green,
        Status::Busy => Color::Yellow,
        Status::Asking => Color::Cyan,
        Status::Waiting => Color::Magenta,
        Status::Unknown => Color::DarkGray,
    }
}

// ---------------------------------------------------------------------------
// The picker's state
// ---------------------------------------------------------------------------

/// The keys that the picker tells apart.
#[derive(Debug, Clone, Copy, PartialEq, Eq, Structural)]
pub enum KeyCode {
    Esc,
    Enter,
    Down,
    Up,
    Backspace,
    Char(char),
    Other,
}

/// A key event: the key, whether Control was held, and whether it is a
/// press (rather than a release or a repeat).
#[derive(Debug, Clone, Copy, PartialEq, Eq, Structural)]
pub struct Key {
    pub code: KeyCode,
    pub ctrl: bool,
    pub press: bool,
}

/// What the picker does after a key.
#[derive(Debug, Clone, Copy, PartialEq, Eq, Structural)]
pub enum PickerAction {
    /// Keep going.
    Continue,
    /// Close without jumping.
    Close,
    /// Close and jump to the instance with this process id.
    Jump(u32),
}

/// The picker: all instances, the search text, the positions of the
/// instances that the list shows (in the order shown), and the selected
/// row of that list.
#[derive(Debug)]
pub struct App {
    pub instances: Vec<Instance>,
    pub filtered: Vec<usize>,
    pub search: String,
    pub selected: Option<usize>,
}

/// The scores of the instances for a search text.
pub open spec fn scores_for(search: Seq<char>, instances: Seq<Instance>) -> Seq<Option<u16>> {
    Seq::new(instances.len(), |i: int| fuzzy_score(search, display_of(instances[i])))
}

/// `filtered` is the list shown for this search: every instance in order
/// when the search is empty, else the instances that match, best first.
pub open spec fn shows(instances: Seq<Instance>, search: Seq<char>, filtered: Seq<usize>) -> bool {
    if search.len() == 0 {
        filtered == Seq::new(instances.len(), |i: int| i as usize)
    } else {
        is_score_ranking(scores_for(search, instances), filtered)
    }
}

/// The selection right after the list changed: its first row, if any.
pub open spec fn first_row(filtered: Seq<usize>) -> Option<usize> {
    if filtered.len() > 0 {
        Some(0)
    } else {
        None
    }
}

/// The selection after moving down one row in a list of `len` rows.
pub open spec fn moved_down(selected: Option<usize>, len: nat) -> Option<usize> {
    match selected {
        Some(s) => if s + 1 < len {
            Some((s + 1) as usize)
        } else {
            selected
        },
        None => None,
    }
}

/// The selection after moving up one row.
pub open spec fn moved_up(selected: Option<usize>) -> Option<usize> {
    match selected {
        Some(s) => if s > 0 {
            Some((s - 1) as usize)
        } else {
            selected
        },
        None => None,
    }
}

/// The first row, from `start` on, that shows the instance with this
/// process id.
pub open spec fn row_of_pid(instances: Seq<Instance>, filtered: Seq<usize>, pid: u32, start: int) -> Option<
    usize,
>
    decreases filtered.len() - start,
{
    if start < 0 || start >= filtered.len() {
        None
    } else if instances[filtered[start] as int].pid == pid {
        Some(start as usize)
    } else {
        row_of_pid(instances, filtered, pid, start + 1)
    }
}

impl App {
    /// The list refers to instances that exist, and a row is selected
    /// exactly when the list has rows.
    pub open spec fn wf(&self) -> bool {
        &&& self.rows_in_range()
        &&& match self.selected {
            Some(s) => s < self.filtered@.len(),
            None => self.filtered@.len() == 0,
        }
    }

    /// Every row of the list refers to an instance that exists.
    pub open spec fn rows_in_range(&self) -> bool {
        forall|k: int| 0 <= k < self.filtered@.len() ==> #[trigger] self.filtered@[k] < self.instances@.len()
    }

    /// The picker is well formed and its list is the one for its search.
    pub open spec fn consistent(&self) -> bool {
        self.wf() && shows(self.instances@, self.search@, self.filtered@)
    }

    /// The instance that the selected row shows.
    pub open spec fn selected_spec(&self) -> Option<Instance> {
        match self.selected {
            Some(s) => if s < self.filtered@.len() {
                Some(self.instances@[self.filtered@[s as int] as int])
            } else {
                None
            },
            None => None,
        }
    }

    /// `after` is `self` with the list made again for `after`'s search, the
    /// first row selected.
    pub open spec fn refiltered(&self, after: &App, search: Seq<char>) -> bool {
        &&& after.instances == self.instances
        &&& after.search@ == search
        &&& shows(after.instances@, search, after.filtered@)
        &&& after.selected == first_row(after.filtered@)
        &&& after.wf()
    }

    /// A picker showing all the instances, in their order, the first
    /// selected.
    pub fn new(instances: Vec<Instance>) -> (app: App)
        ensures
            app.instances == instances,
            app.search@ == Seq::<char>::empty(),
            shows(app.instances@, app.search@, app.filtered@),
            app.selected == first_row(app.filtered@),
            app.consistent(),
    {
        let filtered = all_positions(instances.len());
        let selected = if filtered.len() > 0 {
            Some(0)
        } else {
            None
        };
        App { instances, filtered, search: String::new(), selected }
    }

    /// Makes the list again for the current search and selects its first row.
    pub fn update_filter(&mut self)
        requires
            old(self).search@.len() > 0 ==> texts_fit(old(self).instances@),
        ensures
            old(self).refiltered(final(self), old(self).search@),
            final(self).consistent(),
    {
        let n = self.instances.len();
        if self.search.as_str().is_empty() {
            self.filtered = all_positions(n);
        } else {
            let mut scores: Vec<Option<u16>> = Vec::new();
            let mut i: usize = 0;
            while i < n
                invariant
                    i <= n == self.instances@.len(),
                    texts_fit(self.instances@),
                    scores@.len() == i,
                    forall|k: int|
                        0 <= k < i ==> #[trigger] scores@[k] == fuzzy_score(
                            self.search@,
                            display_of(self.instances@[k]),
                        ),
                decreases n - i,
            {
                let text = display_text(&self.instances[i]);
                assert(encode_utf8(display_of(self.instances@[i as int])).len() <= u32::MAX);
                scores.push(score_match(self.search.as_str(), text.as_str()));
                i = i + 1;
            }
            assert(scores@ =~= scores_for(self.search@, self.instances@));
            self.filtered = rank_by_score(&scores);
        }
        if self.filtered.len() == 0 {
            self.selected = None;
        } else {
            self.selected = Some(0);
        }
    }

    /// Selects the next row, if there is one.
    pub fn move_down(&mut self)
        requires
            old(self).wf(),
        ensures
            final(self).instances == old(self).instances,
            final(self).filtered == old(self).filtered,
            final(self).search == old(self).search,
            final(self).selected == moved_down(old(self).selected, old(self).filtered@.len()),
            final(self).wf(),
            old(self).consistent() ==> final(self).consistent(),
    {
        if let Some(sel) = self.selected {
            assert(sel < self.filtered@.len());
            if sel < self.filtered.len() - 1 {
                self.selected = Some(sel + 1);
            }
        }
    }

    /// Selects the previous row, if there is one.
    pub fn move_up(&mut self)
        requires
            old(self).wf(),
        ensures
            final(self).instances == old(self).instances,
            final(self).filtered == old(self).filtered,
            final(self).search == old(self).search,
            final(self).selected == moved_up(old(self).selected),
            final(self).wf(),
            old(self).consistent() ==> final(self).consistent(),
    {
        if let Some(sel) = self.selected {
            if sel > 0 {
                self.selected = Some(sel - 1);
            }
        }
    }

    /// The instance that the selected row shows; `None` when no row is
    /// selected or the selection is past the end of the list.
    pub fn selected_instance(&self) -> (r: Option<&Instance>)
        requires
            self.rows_in_range(),
        ensures
            r is Some == self.selected_spec() is Some,
            r matches Some(i) ==> *i == self.selected_spec()->0,
    {
        match self.selected {
            Some(sel) => if sel < self.filtered.len() {
                Some(&self.instances[self.filtered[sel]])
            } else {
                None
            },
            None => None,
        }
    }

    /// Takes a new list of instances: the list is made again for the
    /// current search, and the row of the instance that was selected stays
    /// selected if that instance (by process id) is still shown.
    pub fn refresh(&mut self, instances: Vec<Instance>)
        requires
            old(self).wf(),
            old(self).search@.len() > 0 ==> texts_fit(instances@),
        ensures
            final(self).instances == instances,
            final(self).search@ == old(self).search@,
            shows(final(self).instances@, final(self).search@, final(self).filtered@),
            final(self).consistent(),
            final(self).selected == match old(self).selected_spec() {
                Some(i) => match row_of_pid(final(self).instances@, final(self).filtered@, i.pid, 0) {
                    Some(row) => Some(row),
                    None => first_row(final(self).filtered@),
                },
                None => first_row(final(self).filtered@),
            },
    {
        let selected_pid = match self.selected_instance() {
            Some(i) => Some(i.pid),
            None => None,
        };
        let ghost given = instances;
        let ghost search = self.search@;
        self.instances = instances;
        self.update_filter();
        if let Some(pid) = selected_pid {
            let n = self.filtered.len();
            let mut pos: usize = 0;
            while pos < n
                invariant
                    pos <= n == self.filtered@.len(),
                    self.wf(),
                    self.instances == given,
                    self.search@ == search,
                    search == old(self).search@,
                    given == instances,
                    old(self).selected_spec() is Some,
                    old(self).selected_spec()->0.pid == pid,
                    shows(self.instances@, self.search@, self.filtered@),
                    self.selected == first_row(self.filtered@),
                    row_of_pid(self.instances@, self.filtered@, pid, 0) == row_of_pid(
                        self.instances@,
                        self.filtered@,
                        pid,
                        pos as int,
                    ),
                decreases n - pos,
            {
                if self.instances[self.filtered[pos]].pid == pid {
                    self.selected = Some(pos);
                    return;
                }
                pos = pos + 1;
            }
        }
    }

    /// Whether handling this key runs the matcher, so that `handle_key`
    /// needs every search text to fit it.
    pub fn key_needs_matcher(&self, key: Key) -> (r: bool)
        ensures
            r == key_searches(key, self.search@),
    {
        if !key.press {
            return false;
        }
        match key.code {
            KeyCode::Char(c) => !(key.ctrl && (c == 'j' || c == 'k')),
            KeyCode::Backspace => crate::text::chars_of(self.search.as_str()).len() > 1,
            _ => false,
        }
    }

    /// Handles one key: Esc closes; Enter closes and jumps to the selected
    /// instance, if any; Down and Control-j select the next row, Up and
    /// Control-k the previous one; Backspace deletes the last character of
    /// the search and any other character is added to it, each making the
    /// list again; other keys, and events that are not presses, change
    /// nothing.
    pub fn handle_key(&mut self, key: Key) -> (action: PickerAction)
        requires
            old(self).wf(),
            key_searches(key, old(self).search@) ==> texts_fit(old(self).instances@),
        ensures
            final(self).wf(),
            old(self).consistent() ==> final(self).consistent(),
            !key.press ==> action == PickerAction::Continue && *final(self) == *old(self),
            key.press && key.code == KeyCode::Esc ==> action == PickerAction::Close && *final(self)
                == *old(self),
            key.press && key.code == KeyCode::Enter ==> *final(self) == *old(self) && action == match old(
                self,
            ).selected_spec() {
                Some(i) => PickerAction::Jump(i.pid),
                None => PickerAction::Close,
            },
            key.press && key.code == KeyCode::Other ==> action == PickerAction::Continue && *final(self)
                == *old(self),
            key.press && moves_down(key) ==> action == PickerAction::Continue && final(self).instances
                == old(self).instances && final(self).filtered == old(self).filtered && final(self).search
                == old(self).search && final(self).selected == moved_down(
                old(self).selected,
                old(self).filtered@.len(),
            ),
            key.press && moves_up(key) ==> action == PickerAction::Continue && final(self).instances
                == old(self).instances && final(self).filtered == old(self).filtered && final(self).search
                == old(self).search && final(self).selected == moved_up(old(self).selected),
            key.press && key.code == KeyCode::Backspace ==> action == PickerAction::Continue && old(
                self,
            ).refiltered(final(self), erased(old(self).search@)),
            key.press && types(key) ==> action == PickerAction::Continue && old(self).refiltered(
                final(self),
                old(self).search@.push(key.code->Char_0),
            ),
    {
        if !key.press {
            return PickerAction::Continue;
        }
        match key.code {
            KeyCode::Esc => PickerAction::Close,
            KeyCode::Enter => match self.selected_instance() {
                Some(i) => PickerAction::Jump(i.pid),
                None => PickerAction::Close,
            },
            KeyCode::Down => {
                self.move_down();
                PickerAction::Continue
            },
            KeyCode::Up => {
                self.move_up();
                PickerAction::Continue
            },
            KeyCode::Char(c) => {
                if c == 'j' && key.ctrl {
                    self.move_down();
                } else if c == 'k' && key.ctrl {
                    self.move_up();
                } else {
                    push_char(&mut self.search, c);
                    self.update_filter();
                }
                PickerAction::Continue
            },
            KeyCode::Backspace => {
                pop_char(&mut self.search);
                self.update_filter();
                PickerAction::Continue
            },
            KeyCode::Other => PickerAction::Continue,
        }
    }
}

/// The key selects the next row: Down, or Control-j.
pub open spec fn moves_down(key: Key) -> bool {
    key.code == KeyCode::Down || (key.code == KeyCode::Char('j') && key.ctrl)
}

/// The key selects the previous row: Up, or Control-k.
pub open spec fn moves_up(key: Key) -> bool {
    key.code == KeyCode::Up || (key.code == KeyCode::Char('k') && key.ctrl)
}

/// The key adds its character to the search: any character but
/// Control-j and Control-k.
pub open spec fn types(key: Key) -> bool {
    key.code is Char && !(key.ctrl && (key.code->Char_0 == 'j' || key.code->Char_0 == 'k'))
}

/// Every character can be typed into the search: a pressed character key
/// adds its character unless it is Control-j or Control-k, which move the
/// selection; and a key that adds a character is such a key.
pub proof fn every_character_can_be_typed(c: char, ctrl: bool)
    ensures
        !(ctrl && (c == 'j' || c == 'k')) <==> types(Key { code: KeyCode::Char(c), ctrl, press: true }),
        ctrl && c == 'j' ==> moves_down(Key { code: KeyCode::Char(c), ctrl, press: true }),
        ctrl && c == 'k' ==> moves_up(Key { code: KeyCode::Char(c), ctrl, press: true }),
        forall|key: Key| #[trigger] types(key) ==> key.code is Char,
{
}

/// The row found for a process id shows an instance with that id, and no
/// earlier row does; when none is found, no row does.
pub proof fn row_of_pid_law(instances: Seq<Instance>, filtered: Seq<usize>, pid: u32, start: int)
    requires
        0 <= start,
        filtered.len() <= usize::MAX,
    ensures
        row_of_pid(instances, filtered, pid, start) matches Some(r) ==> start <= r < filtered.len()
            && instances[filtered[r as int] as int].pid == pid && forall|q: int|
            start <= q < r ==> instances[filtered[q] as int].pid != pid,
        row_of_pid(instances, filtered, pid, start) is None ==> forall|q: int|
            start <= q < filtered.len() ==> instances[filtered[q] as int].pid != pid,
    decreases filtered.len() - start,
{
    if start < filtered.len() && instances[filtered[start] as int].pid != pid {
        row_of_pid_law(instances, filtered, pid, start + 1);
        assert(row_of_pid(instances, filtered, pid, start) == row_of_pid(
            instances,
            filtered,
            pid,
            start + 1,
        ));
    } else if start < filtered.len() {
        assert(row_of_pid(instances, filtered, pid, start) == Some(start as usize));
    }
}

/// Backspace takes off the last character typed, and does nothing to an
/// empty search.
pub proof fn erasing_undoes_a_character(search: Seq<char>, c: char)
    ensures
        erased(search.push(c)) == search,
        erased(Seq::<char>::empty()) == Seq::<char>::empty(),
        search.len() > 0 ==> erased(search).len() + 1 == search.len() && search == erased(
            search,
        ).push(search.last()),
{
    assert(search.push(c).drop_last() =~= search);
    if search.len() > 0 {
        assert(search.drop_last().push(search.last()) =~= search);
    }
}

/// Moving down selects the next row when there is one and stays on the
/// last row otherwise; moving up selects the previous row and stays on the
/// first; with nothing selected, neither selects anything.
pub proof fn moves_go_one_row(s: usize, len: nat)
    requires
        s < len <= usize::MAX,
    ensures
        s + 1 < len ==> moved_down(Some(s), len) == Some((s + 1) as usize),
        s + 1 == len ==> moved_down(Some(s), len) == Some(s),
        s > 0 ==> moved_up(Some(s)) == Some((s - 1) as usize),
        s == 0 ==> moved_up(Some(s)) == Some(s),
        moved_down(None, len) is None,
        moved_up(None) is None,
{
}

/// A path under the home directory is shown as `~` followed by the rest of
/// the path; any other path, or any path when there is no home directory,
/// is shown as it is.
pub proof fn shortened_law(home: Seq<char>, rest: Seq<char>, path: Seq<char>)
    ensures
        shortened(home + rest, Some(home)) == seq!['~'] + rest,
        !has_prefix(path, home) ==> shortened(path, Some(home)) == path,
        shortened(path, None) == path,
{
    assert((home + rest).take(home.len() as int) =~= home);
    assert((home + rest).skip(home.len() as int) =~= rest);
}

/// With an empty search every instance is shown, in its order; with a
/// search, only instances that match are shown, each once, and a better
/// score is never shown below a worse one.
pub proof fn shown_list_law(instances: Seq<Instance>, search: Seq<char>, filtered: Seq<usize>)
    requires
        shows(instances, search, filtered),
        instances.len() <= usize::MAX,
    ensures
        search.len() == 0 ==> filtered.len() == instances.len() && forall|k: int|
            0 <= k < filtered.len() ==> #[trigger] filtered[k] == k,
        search.len() > 0 ==> forall|k: int|
            0 <= k < filtered.len() ==> #[trigger] fuzzy_score(search, display_of(instances[filtered[k] as int])) is Some,
        search.len() > 0 ==> forall|i: int|
            0 <= i < instances.len() && fuzzy_score(search, display_of(instances[i])) is Some
                ==> #[trigger] filtered.contains(i as usize),
        forall|k: int, l: int|
            0 <= k < l < filtered.len() ==> #[trigger] filtered[k] != #[trigger] filtered[l],
        search.len() > 0 ==> forall|k: int, l: int|
            0 <= k < l < filtered.len() ==> fuzzy_score(search, display_of(instances[#[trigger] filtered[k] as int]))->0
                >= fuzzy_score(search, display_of(instances[#[trigger] filtered[l] as int]))->0,
{
    if search.len() > 0 {
        let scores = scores_for(search, instances);
        assert forall|k: int| 0 <= k < filtered.len() implies #[trigger] fuzzy_score(
            search,
            display_of(instances[filtered[k] as int]),
        ) is Some by {
            assert(scores[filtered[k] as int] is Some);
        }
        assert forall|i: int|
            0 <= i < instances.len() && fuzzy_score(search, display_of(instances[i])) is Some implies #[trigger] filtered.contains(
            i as usize,
        ) by {
            assert(scores[(i as usize) as int] is Some);
        }
        assert forall|k: int, l: int| 0 <= k < l < filtered.len() implies fuzzy_score(
            search,
            display_of(instances[#[trigger] filtered[k] as int]),
        )->0 >= fuzzy_score(search, display_of(instances[#[trigger] filtered[l] as int]))->0 by {
            assert(ranks_before(scores, filtered[k] as int, filtered[l] as int));
        }
        assert forall|k: int, l: int| 0 <= k < l < filtered.len() implies #[trigger] filtered[k]
            != #[trigger] filtered[l] by {
            assert(ranks_before(scores, filtered[k] as int, filtered[l] as int));
        }
    }
}

/// What a row shows: each status in its colour, the shown name of the
/// instance, and as search text that name, a space and the working
/// directory; after the list changes the first row, if any, is selected.
pub proof fn row_text_law(i: Instance, filtered: Seq<usize>)
    ensures
        status_color_of(Status::Idle) == Color::Green,
        status_color_of(Status::Busy) == Color::Yellow,
        status_color_of(Status::Asking) == Color::Cyan,
        status_color_of(Status::Waiting) == Color::Magenta,
        status_color_of(Status::Unknown) == Color::DarkGray,
        display_of(i) == shown_name(i) + seq![' '] + i.cwd@,
        filtered.len() > 0 ==> first_row(filtered) == Some(0usize),
        filtered.len() == 0 ==> first_row(filtered) is None,
        NAME_WIDTH == 20,
{
}

/// The matcher runs for a pressed key exactly when the key types a
/// character, or deletes one from a search of two or more characters.
pub proof fn matcher_keys_law(key: Key, search: Seq<char>)
    ensures
        key_searches(key, search) <==> (key.press && ((key.code is Char && !(key.ctrl && (
        key.code->Char_0 == 'j' || key.code->Char_0 == 'k'))) || (key.code == KeyCode::Backspace
            && search.len() >= 2))),
{
}

/// The search text after Backspace.
pub open spec fn erased(search: Seq<char>) -> Seq<char> {
    if search.len() > 0 {
        search.drop_last()
    } else {
        search
    }
}

/// Every instance's search text fits the matcher: at most `u32::MAX` bytes
/// in UTF-8.
pub open spec fn texts_fit(instances: Seq<Instance>) -> bool {
    forall|i: int| 0 <= i < instances.len() ==> #[trigger] encode_utf8(display_of(instances[i])).len() <= u32::MAX
}

/// Whether every instance's search text fits the matcher.
pub fn display_texts_fit(instances: &Vec<Instance>) -> (r: bool)
    ensures
        r == texts_fit(instances@),
{
    let n = instances.len();
    let mut i: usize = 0;
    while i < n
        invariant
            i <= n == instances@.len(),
            forall|k: int| 0 <= k < i ==> #[trigger] encode_utf8(display_of(instances@[k])).len() <= u32::MAX,
        decreases n - i,
    {
        let text = display_text(&instances[i]);
        if text.as_str().as_bytes().len() > 0xffff_ffff {
            assert(encode_utf8(display_of(instances@[i as int])).len() > u32::MAX);
            return false;
        }
        i = i + 1;
    }
    true
}

/// The key leads to a search with the matcher: it adds a character, or it
/// deletes one from a search that keeps at least one.
pub open spec fn key_searches(key: Key, search: Seq<char>) -> bool {
    key.press && (types(key) || (key.code == KeyCode::Backspace && search.len() > 1))
}

/// The positions `0..n`, in order.
fn all_positions(n: usize) -> (r: Vec<usize>)
    ensures
        r@ == Seq::new(n as nat, |i: int| i as usize),
{
    let mut r: Vec<usize> = Vec::new();
    let mut i: usize = 0;
    while i < n
        invariant
            i <= n,
            r@ == Seq::new(i as nat, |k: int| k as usize),
        decreases n - i,
    {
        r.push(i);
        i = i + 1;
        assert(r@ =~= Seq::new(i as nat, |k: int| k as usize));
    }
    r
}

/// Two lists, each ranked strictly by `ranks_before`, that hold the same
/// positions are the same list.
proof fn lemma_ranked_lists_equal(scores: Seq<Option<u16>>, r1: Seq<usize>, r2: Seq<usize>)
    requires
        forall|k: int, l: int|
            0 <= k < l < r1.len() ==> ranks_before(scores, #[trigger] r1[k] as int, #[trigger] r1[l] as int),
        forall|k: int, l: int|
            0 <= k < l < r2.len() ==> ranks_before(scores, #[trigger] r2[k] as int, #[trigger] r2[l] as int),
        forall|x: usize| #![trigger r1.contains(x)] #![trigger r2.contains(x)] r1.contains(x) <==> r2.contains(x),
    ensures
        r1 == r2,
    decreases r1.len(),
{
    if r1.len() == 0 {
        if r2.len() > 0 {
            assert(r2.contains(r2[0]));
        }
        assert(r1 =~= r2);
    } else if r2.len() == 0 {
        assert(r1.contains(r1[0]));
    } else {
        assert(r1.contains(r1[0]));
        let t = choose|t: int| 0 <= t < r2.len() && r2[t] == r1[0];
        assert(r2.contains(r2[0]));
        let u = choose|u: int| 0 <= u < r1.len() && r1[u] == r2[0];
        if t > 0 {
            assert(ranks_before(scores, r2[0] as int, r2[t] as int));
            if u > 0 {
                assert(ranks_before(scores, r1[0] as int, r1[u] as int));
            }
            assert(false);
        }
        let a = r1.drop_first();
        let b = r2.drop_first();
        assert forall|x: usize| #![trigger a.contains(x)] #![trigger b.contains(x)] a.contains(x) <==> b.contains(x) by {
            if a.contains(x) {
                let i = choose|i: int| 0 <= i < a.len() && a[i] == x;
                assert(ranks_before(scores, r1[0] as int, r1[i + 1] as int));
                assert(r1.contains(x));
                let j = choose|j: int| 0 <= j < r2.len() && r2[j] == x;
                assert(j != 0);
                assert(b[j - 1] == x);
            }
            if b.contains(x) {
                let i = choose|i: int| 0 <= i < b.len() && b[i] == x;
                assert(ranks_before(scores, r2[0] as int, r2[i + 1] as int));
                assert(r2.contains(x));
                let j = choose|j: int| 0 <= j < r1.len() && r1[j] == x;
                assert(j != 0);
                assert(a[j - 1] == x);
            }
        }
        assert forall|k: int, l: int| 0 <= k < l < a.len() implies ranks_before(
            scores,
            #[trigger] a[k] as int,
            #[trigger] a[l] as int,
        ) by {
            assert(ranks_before(scores, r1[k + 1] as int, r1[l + 1] as int));
        }
        assert forall|k: int, l: int| 0 <= k < l < b.len() implies ranks_before(
            scores,
            #[trigger] b[k] as int,
            #[trigger] b[l] as int,
        ) by {
            assert(ranks_before(scores, r2[k + 1] as int, r2[l + 1] as int));
        }
        lemma_ranked_lists_equal(scores, a, b);
        assert(r1 =~= seq![r1[0]] + a);
        assert(r2 =~= seq![r2[0]] + b);
    }
}

/// The list is determined by the instances and the search: two lists that
/// both are the one shown for them are equal.
pub proof fn shown_list_is_unique(
    instances: Seq<Instance>,
    search: Seq<char>,
    f1: Seq<usize>,
    f2: Seq<usize>,
)
    requires
        shows(instances, search, f1),
        shows(instances, search, f2),
    ensures
        f1 == f2,
{
    if search.len() > 0 {
        let scores = scores_for(search, instances);
        assert forall|x: usize| #![trigger f1.contains(x)] #![trigger f2.contains(x)] f1.contains(x) <==> f2.contains(x) by {
            if f1.contains(x) {
                let k = choose|k: int| 0 <= k < f1.len() && f1[k] == x;
                assert(x < scores.len() && scores[x as int] is Some);
            }
            if f2.contains(x) {
                let k = choose|k: int| 0 <= k < f2.len() && f2[k] == x;
                assert(x < scores.len() && scores[x as int] is Some);
            }
        }
        lemma_ranked_lists_equal(scores, f1, f2);
    }
}

/// Backspace undoes typing a character: after a character is typed into
/// the search and Backspace is pressed, the search and the list are what
/// they were before.
pub proof fn backspace_undoes_typing(before: App, typed: App, after: App, c: char)
    requires
        before.consistent(),
        before.refiltered(&typed, before.search@.push(c)),
        typed.refiltered(&after, erased(typed.search@)),
    ensures
        after.instances == before.instances,
        after.search@ == before.search@,
        after.filtered@ == before.filtered@,
{
    assert(erased(before.search@.push(c)) =~= before.search@);
    shown_list_is_unique(before.instances@, before.search@, after.filtered@, before.filtered@);
}

/// Moving down and then up, or up and then down, comes back to the row
/// where it started, whenever the first move went anywhere.
pub proof fn opposite_moves_cancel(selected: Option<usize>, len: nat)
    requires
        selected matches Some(s) && s < len,
        len <= usize::MAX,
    ensures
        moved_down(selected, len) != selected ==> moved_up(moved_down(selected, len)) == selected,
        moved_up(selected) != selected ==> moved_down(moved_up(selected), len) == selected,
{
}

/// Typing one more character never adds a row to the list, as long as the
/// matcher never lets the longer search match a text that the shorter one
/// does not match (which this library does not claim of nucleo; it is the
/// premise here).
pub proof fn longer_search_narrows_list(
    instances: Seq<Instance>,
    search: Seq<char>,
    c: char,
    f1: Seq<usize>,
    f2: Seq<usize>,
)
    requires
        shows(instances, search, f1),
        shows(instances, search.push(c), f2),
        search.len() > 0 ==> forall|i: int|
            0 <= i < instances.len() && (#[trigger] fuzzy_score(search.push(c), display_of(instances[i])))
                is Some ==> fuzzy_score(search, display_of(instances[i])) is Some,
    ensures
        forall|k: int| 0 <= k < f2.len() ==> f1.contains(#[trigger] f2[k]),
{
    assert forall|k: int| 0 <= k < f2.len() implies f1.contains(#[trigger] f2[k]) by {
        let x = f2[k];
        assert(x < instances.len() && scores_for(search.push(c), instances)[x as int] is Some);
        if search.len() == 0 {
            assert(f1[x as int] == x);
        } else {
            assert(fuzzy_score(search.push(c), display_of(instances[x as int])) is Some);
            assert(scores_for(search, instances)[x as int] is Some);
        }
    }
}

} // verus!
