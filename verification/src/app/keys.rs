//! What the keys do.
use vstd::prelude::*;
use vstd::string::*;

use super::jobs;
use super::monitor::has_room;
use super::pane::PaneView;
use super::state::{Action, ActionView, App, AppView, Key, KeyPress, Pick, PickerView, Tab};
use crate::lists::{clear_items, lemma_filter_none, lemma_filter_take, nums, popped, remove_item};
use crate::settings::ROWS;
use crate::text;

verus! {

// -- scrolling --

pub open spec fn least(a: int, b: int) -> int {
    if a < b {
        a
    } else {
        b
    }
}

pub open spec fn less_by(a: int, n: int) -> int {
    if a > n {
        a - n
    } else {
        0
    }
}

/// Where a key moves a position that counts lines up from the end.
pub open spec fn scrolled(pos: int, max: int, code: Key) -> int {
    match code {
        Key::Up => least(pos + 1, max),
        Key::Down => less_by(pos, 1),
        Key::PageUp => least(pos + 20, max),
        Key::PageDown => less_by(pos, 20),
        Key::Char(c) => if c == 'k' {
            least(pos + 1, max)
        } else if c == 'j' {
            less_by(pos, 1)
        } else if c == 'g' {
            max
        } else if c == 'G' {
            0
        } else {
            pos
        },
        _ => pos,
    }
}

/// `pos + n`, but no more than `max`.
fn up_to(pos: usize, n: usize, max: usize) -> (r: usize)
    ensures
        r == least(pos + n, max as int),
{
    if pos >= max || n > max - pos {
        max
    } else {
        pos + n
    }
}

/// `pos - n`, but no less than nothing.
fn down_by(pos: usize, n: usize) -> (r: usize)
    ensures
        r == less_by(pos as int, n as int),
{
    if pos > n {
        pos - n
    } else {
        0
    }
}

pub fn scroll(pos: usize, max: usize, code: Key) -> (r: usize)
    ensures
        r == scrolled(pos as int, max as int, code),
{
    match code {
        Key::Up | Key::Char('k') => up_to(pos, 1, max),
        Key::Down | Key::Char('j') => down_by(pos, 1),
        Key::PageUp => up_to(pos, 20, max),
        Key::PageDown => down_by(pos, 20),
        Key::Char('g') => max,
        Key::Char('G') => 0,
        _ => pos,
    }
}

// -- meanings --

/// Board `at` is not the one that goes.
pub open spec fn other_than(at: int) -> spec_fn(int) -> bool {
    |r: int| r != at
}

/// Places after one of them is gone.
pub open spec fn closed_up(v: Seq<int>, at: int) -> Seq<int> {
    v.filter(other_than(at)).map_values(
        |r: int|
            if r > at {
                r - 1
            } else {
                r
            },
    )
}

impl AppView {
    pub open spec fn cycle_tab(self, by: int) -> AppView {
        AppView { tab: Tab::ALL@[(self.tab.place() + by) % 4], ..self }
    }

    /// The selected board taken out of the project.
    pub open spec fn remove_board(self) -> AppView {
        let at = self.sel;
        let s = self.stop_monitor(at);
        let boards = s.boards.remove(at);
        AppView {
            panes: s.panes.remove(at),
            resume: closed_up(s.resume, at),
            boards,
            active: if s.active > at || s.active >= boards.len() {
                less_by(s.active, 1)
            } else {
                s.active
            },
            sel: least(at, less_by(boards.len() as int, 1)),
            ..s
        }.save(None, false)
    }

    pub open spec fn project_key(self, code: Key) -> AppView {
        let rows = self.boards.len() + self.free_ports().len();
        let down = AppView { sel: least(self.sel + 1, less_by(rows as int, 1)), ..self };
        let up = AppView { sel: less_by(self.sel, 1), ..self };
        match code {
            Key::Down => down,
            Key::Up => up,
            Key::Enter => if self.sel >= self.boards.len() {
                let k = self.sel - self.boards.len();
                if k < self.free_ports().len() {
                    self.add_from_port(self.free_ports()[k])
                } else {
                    self
                }
            } else {
                self.focus(self.sel)
            },
            Key::Char(c) => if c == 'j' {
                down
            } else if c == 'k' {
                up
            } else if c == 'd' && self.sel < self.boards.len() {
                self.remove_board()
            } else {
                self
            },
            _ => self,
        }
    }

    /// The selected setting moved, and the settings written.
    pub open spec fn step_setting(self, by: int) -> AppView {
        let settings = self.settings.step(self.set_sel, by);
        AppView { settings, ..self }.act(ActionView::SaveSettings(settings))
    }

    pub open spec fn settings_key(self, code: Key) -> AppView {
        let down = AppView { set_sel: least(self.set_sel + 1, ROWS - 1), ..self };
        let up = AppView { set_sel: less_by(self.set_sel, 1), ..self };
        match code {
            Key::Down => down,
            Key::Up => up,
            Key::Left => self.step_setting(-1),
            Key::Right | Key::Enter => self.step_setting(1),
            Key::Char(c) => if c == 'j' {
                down
            } else if c == 'k' {
                up
            } else if c == 'h' {
                self.step_setting(-1)
            } else if c == 'l' || c == ' ' {
                self.step_setting(1)
            } else {
                self
            },
            _ => self,
        }
    }

    pub open spec fn with_pane(self, p: PaneView) -> AppView {
        AppView { panes: self.panes.update(self.active, p), ..self }
    }

    pub open spec fn monitor_key(self, code: Key) -> AppView {
        if !(0 <= self.active < self.panes.len()) {
            self
        } else {
            let p = self.panes[self.active];
            let moved = self.with_pane(
                PaneView { scroll: scrolled(p.scroll, p.lines.len() as int, code), ..p },
            );
            let typing = AppView { input: Some(Seq::empty()), ..self };
            match code {
                Key::Enter => if p.link is Some {
                    typing
                } else {
                    self
                },
                Key::Left => self.cycle_pane(-1),
                Key::Right => self.cycle_pane(1),
                Key::Char(c) => if c == 'i' && p.link is Some {
                    typing
                } else if c == '+' || c == '=' {
                    self.step_baud(1)
                } else if c == '-' {
                    self.step_baud(-1)
                } else if c == 'h' {
                    self.cycle_pane(-1)
                } else if c == 'l' {
                    self.cycle_pane(1)
                } else if c == 'x' {
                    self.with_pane(PaneView { lines: Seq::empty(), scroll: 0, ..p })
                } else {
                    moved
                },
                _ => moved,
            }
        }
    }

    /// A line sent to the active board, where it is connected.
    pub open spec fn send(self, line: Seq<char>) -> AppView {
        if self.linked(self.active) {
            let id = self.panes[self.active].link->0.id;
            self.act(ActionView::Send(id, line + self.settings.eol())).noted(
                self.active,
                "→ "@ + line,
            )
        } else {
            self
        }
    }

    pub open spec fn input_key(self, code: Key) -> AppView {
        match self.input {
            None => self,
            Some(buf) => match code {
                Key::Esc => AppView { input: None, ..self },
                Key::Backspace => AppView { input: Some(popped(buf)), ..self },
                Key::Char(c) => AppView { input: Some(buf.push(c)), ..self },
                Key::Enter => AppView { input: Some(Seq::empty()), ..self }.send(buf),
                _ => self,
            },
        }
    }

    pub open spec fn picker_key(self, code: Key) -> AppView {
        match self.picker {
            None => if code == Key::Esc {
                AppView { pending_port: None, ..self }
            } else {
                self
            },
            Some(p) => {
                let n = self.picks().len() as int;
                match code {
                    Key::Esc => AppView { picker: None, pending_port: None, ..self },
                    Key::Enter => if p.sel < n {
                        let (label, detail) = self.picks()[p.sel];
                        AppView { picker: None, ..self }.apply(p.kind, p.target, label, detail)
                    } else {
                        self
                    },
                    Key::Down => AppView {
                        picker: Some(PickerView { sel: least(p.sel + 1, less_by(n, 1)), ..p }),
                        ..self
                    },
                    Key::Up => AppView {
                        picker: Some(PickerView { sel: less_by(p.sel, 1), ..p }),
                        ..self
                    },
                    Key::Backspace => AppView {
                        picker: Some(PickerView { query: popped(p.query), sel: 0, ..p }),
                        ..self
                    },
                    Key::Char(c) => AppView {
                        picker: Some(PickerView { query: p.query.push(c), sel: 0, ..p }),
                        ..self
                    },
                    _ => self,
                }
            },
        }
    }

    /// What a key means on the tab that is shown.
    pub open spec fn tab_key(self, code: Key) -> AppView {
        match self.tab {
            Tab::Build => AppView {
                log_scroll: scrolled(self.log_scroll, self.log.len() as int, code),
                ..self
            },
            Tab::Monitor => self.monitor_key(code),
            Tab::Project => self.project_key(code),
            Tab::Settings => self.settings_key(code),
        }
    }

    pub open spec fn char_key(self, c: char) -> AppView {
        let at = if self.tab == Tab::Project {
            self.sel
        } else {
            self.active
        };
        let on_board = at < self.boards.len();
        if c == 'q' {
            AppView { quit: true, ..self }
        } else if c == '1' {
            AppView { tab: Tab::Build, ..self }
        } else if c == '2' {
            AppView { tab: Tab::Monitor, ..self }
        } else if c == '3' {
            AppView { tab: Tab::Project, ..self }
        } else if c == '4' {
            AppView { tab: Tab::Settings, ..self }
        } else if c == 'a' || (c == 'b' && !on_board) {
            self.open(Pick::AddBoard, 0)
        } else if c == 'b' {
            self.open(Pick::Board, at)
        } else if c == 's' && on_board {
            self.open(Pick::Sketch, at)
        } else if c == 'p' && on_board {
            self.open(Pick::Port, at)
        } else if c == 'c' {
            self.compile()
        } else if c == 'u' {
            self.start_uploads(seq![self.active])
        } else if c == 'F' {
            self.flash_all()
        } else if c == 'I' {
            match self.target() {
                Some(t) => self.install_core(jobs::core_of(t.fqbn)),
                None => self,
            }
        } else if c == 'm' {
            self.toggle_monitor()
        } else {
            self.tab_key(Key::Char(c))
        }
    }

    /// The state after a key. Control-C ends the program from anywhere; a picker
    /// or a message that is being typed takes every other key.
    pub open spec fn key(self, k: KeyPress) -> AppView {
        if k.control && k.code == Key::Char('c') {
            AppView { quit: true, ..self }
        } else if self.picker is Some {
            self.picker_key(k.code)
        } else if self.input is Some {
            self.input_key(k.code)
        } else {
            match k.code {
                Key::Char(c) => self.char_key(c),
                Key::Tab => self.cycle_tab(1),
                Key::BackTab => self.cycle_tab(3),
                Key::Esc => if self.job is Some {
                    self.cancel()
                } else {
                    self.tab_key(Key::Esc)
                },
                _ => self.tab_key(k.code),
            }
        }
    }
}

fn close_up(v: &Vec<usize>, at: usize) -> (r: Vec<usize>)
    ensures
        nums(r@) == closed_up(nums(v@), at as int),
{
    let ghost all = nums(v@);
    let ghost p = other_than(at as int);
    let ghost f = |r: int|
        if r > at {
            r - 1
        } else {
            r
        };
    let mut out: Vec<usize> = Vec::new();
    proof {
        lemma_filter_none(all.take(0), p);
        assert(nums(out@) =~= all.take(0).filter(p).map_values(f));
    }
    for k in 0..v.len()
        invariant
            all == nums(v@),
            p == other_than(at as int),
            f == (|r: int|
                if r > at {
                    r - 1
                } else {
                    r
                }),
            nums(out@) == all.take(k as int).filter(p).map_values(f),
    {
        let r: usize = v[k];
        assert(all[k as int] == r as int);
        proof {
            lemma_filter_take(all, p, k as int);
        }
        let ghost was = all.take(k as int).filter(p);
        let ghost w = out@;
        if r != at {
            let to: usize = if r > at { r - 1 } else { r };
            out.push(to);
            assert(to as int == f(r as int));
            assert(nums(out@) =~= nums(w).push(to as int));
            assert(was.push(r as int).map_values(f) =~= was.map_values(f).push(f(r as int)));
        }
    }
    assert(all.take(all.len() as int) =~= all);
    assert(closed_up(all, at as int) =~= all.filter(p).map_values(f));
    out
}

impl App {
    fn cycle_tab(&mut self, by: usize)
        requires
            by <= 4,
        ensures
            final(self)@ == old(self)@.cycle_tab(by as int),
    {
        let i: usize = self.tab.index();
        self.tab = Tab::ALL[(i + by) % 4];
    }

    fn remove_board(&mut self)
        requires
            old(self)@.paired(),
            old(self)@.sel < old(self)@.boards.len(),
            has_room(old(self)@.panes[old(self)@.sel]),
        ensures
            final(self)@ == old(self)@.remove_board(),
    {
        let at: usize = self.sel;
        let ghost o = self@;
        self.stop_monitor(at);
        let ghost s = self@;
        assert(s.panes.len() == o.panes.len() && s.boards == o.boards);
        assert(self.panes.len() == s.panes.len());
        remove_item(&mut self.panes, at);
        self.resume = close_up(&self.resume, at);
        remove_item(&mut self.boards, at);
        assert(self@.boards.len() == self.boards.len());
        if self.active > at || self.active >= self.boards.len() {
            self.active = down_by(self.active, 1);
        }
        let last: usize = down_by(self.boards.len(), 1);
        if last < at {
            self.sel = last;
        }
        self.save(None);
    }

    fn project_key(&mut self, code: Key)
        requires
            old(self)@.roomy(),
            old(self)@.paired(),
        ensures
            final(self)@ == old(self)@.project_key(code),
    {
        match code {
            Key::Down | Key::Char('j') => {
                let free = self.free_ports();
                assert(nums(free@).len() == free.len());
                let rows: usize = self.boards.len() + free.len();
                self.sel = up_to(self.sel, 1, down_by(rows, 1));
            },
            Key::Up | Key::Char('k') => {
                self.sel = down_by(self.sel, 1);
            },
            Key::Enter => {
                if self.sel >= self.boards.len() {
                    let free = self.free_ports();
                    assert(nums(free@).len() == free.len());
                    let k: usize = self.sel - self.boards.len();
                    if k < free.len() {
                        let j: usize = free[k];
                        assert(nums(free@)[k as int] == j as int);
                        self.add_from_port(j);
                    }
                } else {
                    self.focus(self.sel);
                }
            },
            Key::Char('d') => {
                if self.sel < self.boards.len() {
                    self.remove_board();
                }
            },
            _ => {},
        }
    }

    fn step_setting(&mut self, by: isize)
        ensures
            final(self)@ == old(self)@.step_setting(by as int),
    {
        self.settings.step(self.set_sel, by);
        let settings = self.settings.clone();
        self.act(Action::SaveSettings(settings));
    }

    fn settings_key(&mut self, code: Key)
        ensures
            final(self)@ == old(self)@.settings_key(code),
    {
        match code {
            Key::Down | Key::Char('j') => {
                self.set_sel = up_to(self.set_sel, 1, ROWS - 1);
            },
            Key::Up | Key::Char('k') => {
                self.set_sel = down_by(self.set_sel, 1);
            },
            Key::Left | Key::Char('h') => self.step_setting(-1),
            Key::Right | Key::Char('l') | Key::Enter | Key::Char(' ') => self.step_setting(1),
            _ => {},
        }
    }

    fn scroll_pane(&mut self, code: Key)
        requires
            old(self)@.active < old(self)@.panes.len(),
        ensures
            final(self)@ == ({
                let o = old(self)@;
                let p = o.panes[o.active];
                o.with_pane(
                    PaneView { scroll: scrolled(p.scroll, p.lines.len() as int, code), ..p },
                )
            }),
    {
        let i: usize = self.active;
        let ghost ps = self.panes.deep_view();
        assert(ps[i as int] == self.panes@[i as int].deep_view());
        let to: usize = scroll(self.panes[i].scroll, self.panes[i].lines.len(), code);
        self.panes[i].scroll = to;
        assert(self.panes.deep_view() =~= ps.update(
            i as int,
            PaneView { scroll: to as int, ..ps[i as int] },
        ));
    }

    fn monitor_key(&mut self, code: Key)
        requires
            old(self)@.roomy(),
        ensures
            final(self)@ == old(self)@.monitor_key(code),
    {
        let i: usize = self.active;
        if i >= self.panes.len() {
            return;
        }
        let ghost ps = self.panes.deep_view();
        assert(ps[i as int] == self.panes@[i as int].deep_view());
        let open = self.panes[i].link.is_some();
        match code {
            Key::Enter => {
                if open {
                    self.input = Some(String::new());
                }
            },
            Key::Char('i') => {
                if open {
                    self.input = Some(String::new());
                } else {
                    self.scroll_pane(code);
                }
            },
            Key::Char('+') | Key::Char('=') => self.step_baud(1),
            Key::Char('-') => self.step_baud(-1),
            Key::Left | Key::Char('h') => self.cycle_pane(-1),
            Key::Right | Key::Char('l') => self.cycle_pane(1),
            Key::Char('x') => {
                clear_items(&mut self.panes[i].lines);
                self.panes[i].scroll = 0;
                assert(self.panes.deep_view() =~= ps.update(
                    i as int,
                    PaneView { lines: Seq::empty(), scroll: 0, ..ps[i as int] },
                ));
            },
            _ => self.scroll_pane(code),
        }
    }

    fn send(&mut self, line: &str)
        requires
            old(self)@.roomy(),
            line@.len() <= usize::MAX / 8,
        ensures
            final(self)@ == old(self)@.send(line@),
    {
        let i: usize = self.active;
        if i >= self.panes.len() {
            return;
        }
        assert(self@.panes[i as int] == self.panes@[i as int].deep_view());
        let id: u64 = match &self.panes[i].link {
            Some(l) => l.id,
            None => {
                return;
            },
        };
        let text = text::cat2(line, self.settings.eol());
        self.act(Action::Send(id, text));
        proof {
            reveal_strlit("→ ");
        }
        let note = text::cat2("→ ", line);
        self.note_at(i, note.as_str());
    }

    fn input_key(&mut self, code: Key)
        requires
            old(self)@.roomy(),
        ensures
            final(self)@ == old(self)@.input_key(code),
    {
        let mut buf = match self.input.take() {
            Some(b) => b,
            None => {
                return;
            },
        };
        match code {
            Key::Esc => {},
            Key::Backspace => {
                let last = buf.pop();
                self.input = Some(buf);
            },
            Key::Char(c) => {
                buf.push(c);
                self.input = Some(buf);
            },
            Key::Enter => {
                self.input = Some(String::new());
                self.send(buf.as_str());
            },
            _ => {
                self.input = Some(buf);
            },
        }
    }

    fn picker_key(&mut self, code: Key)
        requires
            old(self)@.paired(),
        ensures
            final(self)@ == old(self)@.picker_key(code),
    {
        if code == Key::Esc {
            self.picker = None;
            self.pending_port = None;
            return;
        }
        let picks = self.picks();
        let n: usize = picks.len();
        assert(self@.picks().len() == n);
        let mut p = match self.picker.take() {
            Some(p) => p,
            None => {
                return;
            },
        };
        match code {
            Key::Enter => {
                if p.sel < n {
                    let pick = &picks[p.sel];
                    assert(pick.deep_view() == picks.deep_view()[p.sel as int]);
                    let (label, detail) = (pick.0.clone(), pick.1.clone());
                    self.apply(p.kind, p.target, label, detail);
                } else {
                    self.picker = Some(p);
                }
            },
            Key::Down => {
                p.sel = up_to(p.sel, 1, down_by(n, 1));
                self.picker = Some(p);
            },
            Key::Up => {
                p.sel = down_by(p.sel, 1);
                self.picker = Some(p);
            },
            Key::Backspace => {
                let last = p.query.pop();
                p.sel = 0;
                self.picker = Some(p);
            },
            Key::Char(c) => {
                p.query.push(c);
                p.sel = 0;
                self.picker = Some(p);
            },
            _ => {
                self.picker = Some(p);
            },
        }
    }

    fn tab_key(&mut self, code: Key)
        requires
            old(self)@.roomy(),
            old(self)@.paired(),
        ensures
            final(self)@ == old(self)@.tab_key(code),
    {
        match self.tab {
            Tab::Build => {
                self.log_scroll = scroll(self.log_scroll, self.log.len(), code);
            },
            Tab::Monitor => self.monitor_key(code),
            Tab::Project => self.project_key(code),
            Tab::Settings => self.settings_key(code),
        }
    }

    fn char_key(&mut self, c: char)
        requires
            old(self)@.roomy(),
            old(self)@.paired(),
        ensures
            final(self)@ == old(self)@.char_key(c),
    {
        let at: usize = if self.tab == Tab::Project { self.sel } else { self.active };
        let on_board = at < self.boards.len();
        if c == 'q' {
            self.quit = true;
        } else if c == '1' {
            self.tab = Tab::Build;
        } else if c == '2' {
            self.tab = Tab::Monitor;
        } else if c == '3' {
            self.tab = Tab::Project;
        } else if c == '4' {
            self.tab = Tab::Settings;
        } else if c == 'a' || (c == 'b' && !on_board) {
            self.open(Pick::AddBoard, 0);
        } else if c == 'b' {
            self.open(Pick::Board, at);
        } else if c == 's' && on_board {
            self.open(Pick::Sketch, at);
        } else if c == 'p' && on_board {
            self.open(Pick::Port, at);
        } else if c == 'c' {
            self.compile();
        } else if c == 'u' {
            self.upload();
        } else if c == 'F' {
            self.flash_all();
        } else if c == 'I' {
            let core = match self.target() {
                Some(t) => jobs::core_name(t.fqbn.as_str()),
                None => {
                    return;
                },
            };
            self.install_core(core.as_str());
        } else if c == 'm' {
            self.toggle_monitor();
        } else {
            self.tab_key(Key::Char(c));
        }
    }

    pub fn key(&mut self, k: KeyPress)
        requires
            old(self)@.roomy(),
            old(self)@.paired(),
        ensures
            final(self)@ == old(self)@.key(k),
    {
        if k.control && k.code == Key::Char('c') {
            self.quit = true;
            return;
        }
        if self.picker.is_some() {
            return self.picker_key(k.code);
        }
        if self.input.is_some() {
            return self.input_key(k.code);
        }
        match k.code {
            Key::Char(c) => self.char_key(c),
            Key::Tab => self.cycle_tab(1),
            Key::BackTab => self.cycle_tab(3),
            Key::Esc => {
                if self.job.is_some() {
                    self.cancel();
                } else {
                    self.tab_key(Key::Esc);
                }
            },
            _ => self.tab_key(k.code),
        }
    }
}

} // verus!
