//! The settings, and how a row of them is changed.
use vstd::prelude::*;
use vstd::string::*;

use crate::app::BAUDS;
use crate::lists::{lemma_seek, place, ring, seek};
use crate::text::{number, same};
#[allow(unused_imports)]
use crate::text::decimal;

verus! {

pub const THEMES: [&'static str; 4] = ["fluxus", "light", "gruvbox", "mono"];

pub const EOL_NAMES: [&'static str; 4] = ["lf", "crlf", "cr", "none"];

pub const EOLS: [&'static str; 4] = ["\n", "\r\n", "\r", ""];

pub const ROWS: usize = 4;

#[derive(Debug, PartialEq)]
pub struct Settings {
    pub theme: String,
    pub baud: u32,
    pub line_ending: String,
    pub verbose: bool,
}

pub struct SettingsView {
    pub theme: Seq<char>,
    pub baud: u32,
    pub line_ending: Seq<char>,
    pub verbose: bool,
}

impl DeepView for Settings {
    type V = SettingsView;

    open spec fn deep_view(&self) -> SettingsView {
        SettingsView {
            theme: self.theme@,
            baud: self.baud,
            line_ending: self.line_ending@,
            verbose: self.verbose,
        }
    }
}

impl Clone for Settings {
    fn clone(&self) -> (r: Settings)
        ensures
            r.deep_view() == self.deep_view(),
    {
        Settings {
            theme: self.theme.clone(),
            baud: self.baud,
            line_ending: self.line_ending.clone(),
            verbose: self.verbose,
        }
    }
}

pub open spec fn default_settings() -> SettingsView {
    SettingsView { theme: "fluxus"@, baud: 9600, line_ending: "lf"@, verbose: false }
}

impl Default for Settings {
    fn default() -> (r: Settings)
        ensures
            r.deep_view() == default_settings(),
    {
        Settings {
            theme: "fluxus".to_owned(),
            baud: 9600,
            line_ending: "lf".to_owned(),
            verbose: false,
        }
    }
}

// -- ~/.config/fluxus/settings.yaml --

/// The folder that the way to the settings starts from.
#[derive(Clone, Copy, PartialEq, Eq, Structural, Debug)]
pub enum Base {
    /// `XDG_CONFIG_HOME`
    Config,
    /// `HOME`
    Home,
}

/// The way to the settings: from the folder for settings where one is set, else
/// from the home folder.
pub open spec fn way(config: bool, home: bool) -> Option<(Base, Seq<Seq<char>>)> {
    if config {
        Some((Base::Config, seq!["fluxus"@, "settings.yaml"@]))
    } else if home {
        Some((Base::Home, seq![".config"@, "fluxus"@, "settings.yaml"@]))
    } else {
        None
    }
}

pub fn path(config: bool, home: bool) -> (r: Option<(Base, Vec<&'static str>)>)
    ensures
        match r {
            Some((base, names)) => way(config, home) == Some((base, names.deep_view())),
            None => way(config, home) is None,
        },
{
    if config {
        let names: Vec<&'static str> = vec!["fluxus", "settings.yaml"];
        assert(names.deep_view() =~= seq!["fluxus"@, "settings.yaml"@]);
        Some((Base::Config, names))
    } else if home {
        let names: Vec<&'static str> = vec![".config", "fluxus", "settings.yaml"];
        assert(names.deep_view() =~= seq![".config"@, "fluxus"@, "settings.yaml"@]);
        Some((Base::Home, names))
    } else {
        None
    }
}

/// The settings that were read; the default ones where none could be.
pub fn load(read: Option<Settings>) -> (r: Settings)
    ensures
        r.deep_view() == match read {
            Some(s) => s.deep_view(),
            None => default_settings(),
        },
{
    match read {
        Some(s) => s,
        None => Settings::default(),
    }
}

// -- stepping through a list --

pub open spec fn equals<T>(list: Seq<T>, cur: T) -> spec_fn(int) -> bool {
    |i: int| list[i] == cur
}

/// Where `cur` stands in the list; the first place where it does not.
pub open spec fn place_in<T>(list: Seq<T>, cur: T) -> int {
    match place(list.len() as int, equals(list, cur)) {
        Some(i) => i,
        None => 0,
    }
}

/// The element `by` places after `cur`, the list taken as a ring.
pub open spec fn stepped<T>(list: Seq<T>, cur: T, by: int) -> T {
    list[(place_in(list, cur) + by) % list.len() as int]
}

/// The texts of a list of literals.
pub open spec fn names(list: Seq<&'static str>) -> Seq<Seq<char>> {
    list.map_values(|s: &'static str| s@)
}

fn place_of_name(list: &[&'static str], cur: &str) -> (r: usize)
    requires
        0 < list.len(),
    ensures
        r == place_in(names(list@), cur@),
        r < list.len(),
{
    let ghost all = names(list@);
    let ghost p = equals(all, cur@);
    for i in 0..list.len()
        invariant
            all == names(list@),
            p == equals(all, cur@),
            seek(0, all.len() as int, p) == seek(i as int, all.len() as int, p),
    {
        if same(list[i], cur) {
            return i;
        }
    }
    0
}

/// The name `by` places after `cur`, the list taken as a ring.
pub fn step_name(list: &[&'static str], cur: &str, by: isize) -> (r: String)
    requires
        0 < list.len(),
    ensures
        r@ == stepped(names(list@), cur@, by as int),
{
    let at: usize = place_of_name(list, cur);
    let to: usize = ring(at, by, list.len());
    list[to].to_owned()
}

/// The number `by` places after `cur`, the list taken as a ring.
pub fn step_in(list: &[u32], cur: u32, by: isize) -> (r: u32)
    requires
        0 < list.len(),
    ensures
        r == stepped(list@, cur, by as int),
{
    let ghost p = equals(list@, cur);
    let mut at: usize = 0;
    while at < list.len() && list[at] != cur
        invariant
            at <= list.len(),
            p == equals(list@, cur),
            seek(0, list@.len() as int, p) == seek(at as int, list@.len() as int, p),
        decreases list.len() - at,
    {
        at = at + 1;
    }
    if at == list.len() {
        at = 0;
    }
    let to: usize = ring(at, by, list.len());
    list[to]
}

// -- the rows --

impl SettingsView {
    /// The settings after row `row` was moved by `by`.
    pub open spec fn step(self, row: int, by: int) -> SettingsView {
        if row == 0 {
            SettingsView { theme: stepped(names(THEMES@), self.theme, by), ..self }
        } else if row == 1 {
            SettingsView { baud: stepped(BAUDS@, self.baud, by), ..self }
        } else if row == 2 {
            SettingsView { line_ending: stepped(names(EOL_NAMES@), self.line_ending, by), ..self }
        } else {
            SettingsView { verbose: !self.verbose, ..self }
        }
    }

    /// What ends a line that is sent.
    pub open spec fn eol(self) -> Seq<char> {
        match place(4, equals(names(EOL_NAMES@), self.line_ending)) {
            Some(i) => EOLS@[i]@,
            None => "\n"@,
        }
    }

    pub open spec fn theme_index(self) -> int {
        place_in(names(THEMES@), self.theme)
    }

    /// The rows as they are shown: a label and a value.
    pub open spec fn rows(self) -> Seq<(Seq<char>, Seq<char>)> {
        seq![
            ("theme"@, self.theme),
            ("default baud"@, decimal(self.baud as nat)),
            ("send line ending"@, self.line_ending),
            (
                "verbose compile"@,
                if self.verbose {
                    "on"@
                } else {
                    "off"@
                },
            ),
        ]
    }
}

impl Settings {
    pub fn rows(&self) -> (r: [(&'static str, String); ROWS])
        ensures
            r.deep_view() == self.deep_view().rows(),
    {
        let verbose = if self.verbose { "on" } else { "off" };
        let r = [
            ("theme", self.theme.clone()),
            ("default baud", number(self.baud as u64)),
            ("send line ending", self.line_ending.clone()),
            ("verbose compile", verbose.to_owned()),
        ];
        assert(r.deep_view() =~= self.deep_view().rows());
        r
    }

    pub fn step(&mut self, row: usize, by: isize)
        ensures
            final(self).deep_view() == old(self).deep_view().step(row as int, by as int),
    {
        if row == 0 {
            self.theme = step_name(&THEMES, self.theme.as_str(), by);
        } else if row == 1 {
            self.baud = step_in(&BAUDS, self.baud, by);
        } else if row == 2 {
            self.line_ending = step_name(&EOL_NAMES, self.line_ending.as_str(), by);
        } else {
            self.verbose = !self.verbose;
        }
    }

    pub fn eol(&self) -> (r: &'static str)
        ensures
            r@ == self.deep_view().eol(),
    {
        let ghost all = names(EOL_NAMES@);
        let ghost p = equals(all, self.line_ending@);
        for i in 0..4
            invariant
                all == names(EOL_NAMES@),
                p == equals(all, self.line_ending@),
                seek(0, 4, p) == seek(i as int, 4, p),
        {
            if same(EOL_NAMES[i], self.line_ending.as_str()) {
                return EOLS[i];
            }
        }
        "\n"
    }

    pub fn theme_index(&self) -> (r: usize)
        ensures
            r == self.deep_view().theme_index(),
            r < THEMES@.len(),
    {
        place_of_name(&THEMES, self.theme.as_str())
    }
}

// -- what holds of the steps --

/// Where every element of the list is there once, one that is listed stands at
/// its own place.
proof fn lemma_place_in<T>(list: Seq<T>, i: int)
    requires
        list.no_duplicates(),
        0 <= i < list.len(),
    ensures
        place_in(list, list[i]) == i,
{
    let p = equals(list, list[i]);
    lemma_seek(0, list.len() as int, p);
    assert(p(i));
    assert(p(seek(0, list.len() as int, p)));
}

/// Two steps make one: by `a` and then by `b` is by their sum, wherever the first
/// starts. So steps wrap both ways, and a step back undoes a step. A full round
/// leads back, every step ends on the list, and a value that is not listed counts
/// as the first.
pub proof fn law_steps_add_up<T>(list: Seq<T>, cur: T, a: int, b: int)
    requires
        list.len() > 0,
        list.no_duplicates(),
    ensures
        stepped(list, stepped(list, cur, a), b) == stepped(list, cur, a + b),
        list.contains(stepped(list, cur, a)),
        list.contains(cur) ==> stepped(list, cur, 0) == cur,
        list.contains(cur) ==> stepped(list, cur, list.len() as int) == cur,
        stepped(list, cur, a + list.len()) == stepped(list, cur, a),
        !list.contains(cur) ==> stepped(list, cur, a) == stepped(list, list[0], a),
{
    let n = list.len() as int;
    lemma_seek(0, n, equals(list, cur));
    let at = place_in(list, cur);
    let i = (at + a) % n;
    assert(0 <= i < n) by (nonlinear_arith)
        requires
            n > 0,
            i == (at + a) % n,
    ;
    lemma_place_in(list, i);
    assert((i + b) % n == (at + (a + b)) % n) by {
        vstd::arithmetic::div_mod::lemma_add_mod_noop(at + a, b, n);
        vstd::arithmetic::div_mod::lemma_add_mod_noop(i, b, n);
        vstd::arithmetic::div_mod::lemma_mod_twice(at + a, n);
        assert(at + (a + b) == (at + a) + b);
    }
    assert((at + (a + n)) % n == (at + a) % n) by {
        vstd::arithmetic::div_mod::lemma_mod_add_multiples_vanish(at + a, n);
        assert(at + (a + n) == n + (at + a));
    }
    if list.contains(cur) {
        let k = choose|k: int| 0 <= k < n && list[k] == cur;
        lemma_place_in(list, k);
        assert((at + 0) % n == at) by {
            vstd::arithmetic::div_mod::lemma_small_mod(at as nat, n as nat);
        }
        assert((at + n) % n == at) by {
            vstd::arithmetic::div_mod::lemma_mod_add_multiples_vanish(at, n);
        }
    } else {
        lemma_place_in(list, 0);
        match place(n, equals(list, cur)) {
            Some(k) => {
                assert(equals(list, cur)(k));
                assert(list[k] == cur);
            },
            None => {},
        }
    }
}

/// Each list that a row steps through holds every element once.
pub proof fn lemma_lists_are_distinct()
    ensures
        names(THEMES@).no_duplicates(),
        names(EOL_NAMES@).no_duplicates(),
        BAUDS@.no_duplicates(),
{
    reveal_strlit("fluxus");
    reveal_strlit("light");
    reveal_strlit("gruvbox");
    reveal_strlit("mono");
    reveal_strlit("lf");
    reveal_strlit("crlf");
    reveal_strlit("cr");
    reveal_strlit("none");
    let t = names(THEMES@);
    assert(t[0][0] == 'f' && t[1][0] == 'l' && t[2][0] == 'g' && t[3][0] == 'm');
    let e = names(EOL_NAMES@);
    assert(e[0].len() == 2 && e[1].len() == 4 && e[2].len() == 2 && e[3].len() == 4);
    assert(e[0][0] == 'l' && e[1][0] == 'c' && e[2][0] == 'c' && e[3][0] == 'n');
}

impl SettingsView {
    pub open spec fn listed(self) -> bool {
        &&& names(THEMES@).contains(self.theme)
        &&& BAUDS@.contains(self.baud)
        &&& names(EOL_NAMES@).contains(self.line_ending)
    }

    /// On settings whose values are listed, moving a row back undoes moving it,
    /// and the values stay listed.
    pub proof fn law_step_back(self, row: int)
        requires
            self.listed(),
        ensures
            self.step(row, 1).listed(),
            self.step(row, -1).listed(),
            self.step(row, 1).step(row, -1) == self,
            self.step(row, -1).step(row, 1) == self,
    {
        lemma_lists_are_distinct();
        law_steps_add_up(names(THEMES@), self.theme, 1, -1);
        law_steps_add_up(names(THEMES@), self.theme, -1, 1);
        law_steps_add_up(BAUDS@, self.baud, 1, -1);
        law_steps_add_up(BAUDS@, self.baud, -1, 1);
        law_steps_add_up(names(EOL_NAMES@), self.line_ending, 1, -1);
        law_steps_add_up(names(EOL_NAMES@), self.line_ending, -1, 1);
    }
}

// -- what holds of the rows --

/// A step from a listed value leads `by` places on, round the list.
pub proof fn law_steps_follow_the_list<T>(list: Seq<T>, i: int, by: int)
    requires
        list.no_duplicates(),
        0 <= i < list.len(),
    ensures
        stepped(list, list[i], by) == list[(i + by) % list.len() as int],
{
    lemma_place_in(list, i);
}

/// Each row changes its own value along its own list, and no other value.
pub proof fn law_each_row_changes_its_own(s: SettingsView, i: int, by: int)
    ensures
        0 <= i < 4 && s.theme == THEMES@[i]@ ==> s.step(0, by) == (SettingsView {
            theme: THEMES@[(i + by) % 4]@,
            ..s
        }),
        0 <= i < 15 && s.baud == BAUDS@[i] ==> s.step(1, by) == (SettingsView {
            baud: BAUDS@[(i + by) % 15],
            ..s
        }),
        0 <= i < 4 && s.line_ending == EOL_NAMES@[i]@ ==> s.step(2, by) == (SettingsView {
            line_ending: EOL_NAMES@[(i + by) % 4]@,
            ..s
        }),
        s.step(3, by) == (SettingsView { verbose: !s.verbose, ..s }),
        s.step(0, by) == (SettingsView { theme: s.step(0, by).theme, ..s }),
        s.step(1, by) == (SettingsView { baud: s.step(1, by).baud, ..s }),
        s.step(2, by) == (SettingsView { line_ending: s.step(2, by).line_ending, ..s }),
{
    lemma_lists_are_distinct();
    assert(0 <= (i + by) % 4 < 4 && 0 <= (i + by) % 15 < 15);
    if 0 <= i < 4 {
        law_steps_follow_the_list(names(THEMES@), i, by);
        law_steps_follow_the_list(names(EOL_NAMES@), i, by);
    }
    if 0 <= i < 15 {
        law_steps_follow_the_list(BAUDS@, i, by);
    }
}

/// What ends a line: a line feed, a carriage return, both or nothing, as the
/// settings name it; a line feed where they name nothing known.
pub proof fn law_line_endings(s: SettingsView)
    ensures
        s.line_ending == "lf"@ ==> s.eol() == seq!['\n'],
        s.line_ending == "crlf"@ ==> s.eol() == seq!['\r', '\n'],
        s.line_ending == "cr"@ ==> s.eol() == seq!['\r'],
        s.line_ending == "none"@ ==> s.eol() == Seq::<char>::empty(),
        s.line_ending != "lf"@ && s.line_ending != "crlf"@ && s.line_ending != "cr"@
            && s.line_ending != "none"@ ==> s.eol() == seq!['\n'],
{
    reveal_strlit("\n");
    reveal_strlit("\r\n");
    reveal_strlit("\r");
    reveal_strlit("");
    let all = names(EOL_NAMES@);
    let p = equals(all, s.line_ending);
    lemma_lists_are_distinct();
    lemma_seek(0, 4, p);
    let k = seek(0, 4, p);
    assert(all[0] == "lf"@ && all[1] == "crlf"@ && all[2] == "cr"@ && all[3] == "none"@);
    if k < 4 {
        assert(p(k));
    } else {
        assert(!p(0) && !p(1) && !p(2) && !p(3));
    }
    if s.line_ending == "lf"@ {
        assert(p(0));
    }
    if s.line_ending == "crlf"@ {
        assert(p(1));
    }
    if s.line_ending == "cr"@ {
        assert(p(2));
    }
    if s.line_ending == "none"@ {
        assert(p(3));
    }
    assert("\n"@ =~= seq!['\n']);
    assert("\r\n"@ =~= seq!['\r', '\n']);
    assert("\r"@ =~= seq!['\r']);
    assert(""@ =~= Seq::<char>::empty());
    assert(EOLS@[0]@ == "\n"@ && EOLS@[1]@ == "\r\n"@ && EOLS@[2]@ == "\r"@ && EOLS@[3]@ == ""@);
}

/// A theme that is known stands at its own place, and any other counts as the
/// first.
pub proof fn law_themes_have_their_places(s: SettingsView, i: int)
    ensures
        0 <= i < 4 && s.theme == THEMES@[i]@ ==> s.theme_index() == i,
        (forall|k: int| 0 <= k < 4 ==> s.theme != (#[trigger] THEMES@[k])@) ==> s.theme_index()
            == 0,
{
    lemma_lists_are_distinct();
    let all = names(THEMES@);
    let p = equals(all, s.theme);
    if 0 <= i < 4 && s.theme == THEMES@[i]@ {
        lemma_place_in(all, i);
    }
    lemma_seek(0, 4, p);
    let k = seek(0, 4, p);
    if k < 4 {
        assert(p(k));
        assert(THEMES@[k]@ == s.theme);
    }
}

/// Each row shows its own value.
pub proof fn law_rows_show_their_values(s: SettingsView)
    ensures
        s.rows().len() == ROWS,
        s.rows()[0] == ("theme"@, s.theme),
        s.rows()[1] == ("default baud"@, decimal(s.baud as nat)),
        s.rows()[2] == ("send line ending"@, s.line_ending),
        s.verbose ==> s.rows()[3] == ("verbose compile"@, "on"@),
        !s.verbose ==> s.rows()[3] == ("verbose compile"@, "off"@),
{
}

/// The settings to begin with: the first theme, a common rate, line feeds, and no
/// long output.
pub proof fn law_settings_to_begin_with()
    ensures
        default_settings().theme_index() == 0,
        default_settings().theme == "fluxus"@,
        default_settings().baud == 9600,
        default_settings().eol() == seq!['\n'],
        !default_settings().verbose,
        default_settings().listed(),
{
    let s = default_settings();
    law_line_endings(s);
    law_themes_have_their_places(s, 0);
    assert(names(THEMES@)[0] == s.theme);
    assert(names(EOL_NAMES@)[0] == s.line_ending);
    assert(BAUDS@[4] == 9600);
}

/// The way to the settings ends in their own folder. The folder for settings comes
/// before the home folder, where it is known.
pub proof fn law_the_way_to_the_settings(home: bool)
    ensures
        way(true, home) == Some((Base::Config, seq!["fluxus"@, "settings.yaml"@])),
        way(false, true) == Some((Base::Home, seq![".config"@, "fluxus"@, "settings.yaml"@])),
        way(false, false) is None,
{
}

} // verus!
