//! Choosing boards, sketches and ports, and putting boards into the project.
use vstd::prelude::*;
use vstd::string::*;

use super::kinds;
use super::state::{Action, ActionView, App, AppView, Pick, Picker, PickerView, Tab};
use crate::cli::{BoardView, Detected, DetectedView};
use crate::lists::{lemma_filter_none, lemma_filter_take, place, push_item, seek};
use crate::project::{Target, TargetView};
use crate::sketch;
use crate::text;

verus! {

pub open spec fn of_known_kind(bs: Seq<BoardView>) -> spec_fn(int) -> bool {
    |k: int| bs[k].fqbn.len() > 0
}

/// The first board that a port reports with its kind.
pub open spec fn known_board(d: DetectedView) -> Option<BoardView> {
    match place(d.matching_boards.len() as int, of_known_kind(d.matching_boards)) {
        Some(k) => Some(d.matching_boards[k]),
        None => None,
    }
}

pub fn find_known_board(d: &Detected) -> (r: Option<usize>)
    ensures
        match r {
            Some(k) => k < d.matching_boards.len() && known_board(d.deep_view()) == Some(
                d.matching_boards@[k as int].deep_view(),
            ),
            None => known_board(d.deep_view()) is None,
        },
{
    let ghost bs = d.deep_view().matching_boards;
    let ghost p = of_known_kind(bs);
    for k in 0..d.matching_boards.len()
        invariant
            bs == d.deep_view().matching_boards,
            p == of_known_kind(bs),
            seek(0, bs.len() as int, p) == seek(k as int, bs.len() as int, p),
    {
        assert(bs[k as int] == d.matching_boards@[k as int].deep_view());
        if !d.matching_boards[k].fqbn.as_str().is_empty() {
            return Some(k);
        }
    }
    None
}

impl AppView {
    pub open spec fn open(self, kind: Pick, target: int) -> AppView {
        AppView {
            picker: Some(PickerView { kind, target, query: Seq::empty(), sel: 0 }),
            ..self
        }
    }

    /// Board `i` given a sketch, once the sketch's own file has been read.
    pub open spec fn set_sketch(self, i: int, rel: Seq<char>) -> AppView {
        if !(0 <= i < self.boards.len()) {
            self
        } else if sketch::folder(rel) {
            self.act(ActionView::ReadSketch { board: i, rel })
        } else {
            self.sketch_read(i, rel, None)
        }
    }

    /// Board `i` with its sketch: a board without a port takes the one that the
    /// sketch names, and the pane takes its rate.
    pub open spec fn sketch_read(self, i: int, rel: Seq<char>, yaml: Option<Seq<char>>) -> AppView {
        if !(0 <= i < self.boards.len()) {
            self
        } else {
            let t = self.boards[i];
            let port = match t.port {
                Some(a) => Some(a),
                None => match yaml {
                    Some(y) => sketch::value_at(y, "default_port:"@),
                    None => None,
                },
            };
            AppView {
                boards: self.boards.update(i, TargetView { port, sketch: Some(rel), ..t }),
                ..self
            }.baud_read(i, yaml).save(Some(i), false)
        }
    }

    /// The sketch is made for boards of that kind.
    pub open spec fn made_for(self, fqbn: Seq<char>) -> spec_fn(Seq<char>) -> bool {
        |s: Seq<char>| kinds::at(self.sketch_fqbn, s) == Some(fqbn)
    }

    /// A board put into the project. It gets the one sketch that is made for its
    /// kind; where there is none or more than one, a picker asks.
    pub open spec fn add_board(
        self,
        name: Seq<char>,
        fqbn: Seq<char>,
        port: Option<Seq<char>>,
    ) -> AppView {
        let made = self.sketches.filter(self.made_for(fqbn));
        let i = self.boards.len() as int;
        let s = AppView {
            boards: self.boards.push(TargetView { name, fqbn, port, sketch: None }),
            ..self
        }.new_pane(i);
        let t = AppView {
            sel: i,
            tab: Tab::Project,
            active: if i == 0 {
                0
            } else {
                s.active
            },
            ..s
        };
        if made.len() == 1 {
            t.set_sketch(i, made[0])
        } else {
            t.save(None, false).open(Pick::Sketch, i)
        }
    }

    /// The board at port `j` put into the project; a picker asks for its kind
    /// where the port does not report it.
    pub open spec fn add_from_port(self, j: int) -> AppView {
        let d = self.ports[j];
        match known_board(d) {
            Some(b) => self.add_board(b.name, b.fqbn, Some(d.port.address)),
            None => AppView { pending_port: Some(d.port.address), ..self }.open(Pick::AddBoard, 0),
        }
    }

    /// What was picked, put to use.
    pub open spec fn apply(
        self,
        kind: Pick,
        i: int,
        label: Seq<char>,
        detail: Seq<char>,
    ) -> AppView {
        if text::begins(detail, "install "@) {
            AppView { pending_port: None, ..self }.install_core(
                detail.skip("install "@.len() as int),
            )
        } else {
            match kind {
                Pick::AddBoard => AppView { pending_port: None, ..self }.add_board(
                    label,
                    detail,
                    self.pending_port,
                ),
                Pick::Board => if 0 <= i < self.boards.len() {
                    AppView {
                        boards: self.boards.update(
                            i,
                            TargetView { name: label, fqbn: detail, ..self.boards[i] },
                        ),
                        ..self
                    }.save(Some(i), false)
                } else {
                    self
                },
                Pick::Sketch => self.set_sketch(i, label),
                Pick::Port => if 0 <= i < self.boards.len() {
                    AppView {
                        boards: self.boards.update(
                            i,
                            TargetView { port: Some(label), ..self.boards[i] },
                        ),
                        ..self
                    }.save(Some(i), false)
                } else {
                    self
                },
            }
        }
    }
}

impl App {
    pub fn open(&mut self, kind: Pick, target: usize)
        ensures
            final(self)@ == old(self)@.open(kind, target as int),
    {
        self.picker = Some(Picker { kind, target, query: String::new(), sel: 0 });
    }

    pub fn set_sketch(&mut self, i: usize, rel: String)
        ensures
            final(self)@ == old(self)@.set_sketch(i as int, rel@),
    {
        if i >= self.boards.len() {
            return;
        }
        if sketch::is_folder(rel.as_str()) {
            self.act(Action::ReadSketch { board: i, rel });
        } else {
            self.sketch_read(i, rel, &None);
        }
    }

    pub(crate) fn sketch_read(&mut self, i: usize, rel: String, yaml: &Option<String>)
        ensures
            final(self)@ == old(self)@.sketch_read(i as int, rel@, yaml.deep_view()),
    {
        if i >= self.boards.len() {
            return;
        }
        let ghost bs = self.boards.deep_view();
        assert(bs[i as int] == self.boards@[i as int].deep_view());
        if self.boards[i].port.is_none() {
            let port = match yaml {
                Some(y) => sketch::yaml_value(y.as_str(), "default_port:"),
                None => None,
            };
            self.boards[i].port = port;
        }
        self.boards[i].sketch = Some(rel);
        assert(self.boards.deep_view() =~= old(self)@.sketch_read(
            i as int,
            rel@,
            yaml.deep_view(),
        ).boards);
        self.baud_read(i, yaml);
        self.save(Some(i));
    }

    pub fn add_board(&mut self, name: String, fqbn: String, port: Option<String>)
        requires
            old(self)@.paired(),
        ensures
            final(self)@ == old(self)@.add_board(name@, fqbn@, port.deep_view()),
    {
        let ghost o = self@;
        let ghost all = o.sketches;
        let ghost p = o.made_for(fqbn@);
        let mut made: Vec<String> = Vec::new();
        proof {
            lemma_filter_none(all.take(0), p);
            assert(made.deep_view() =~= all.take(0).filter(p));
        }
        for k in 0..self.sketches.len()
            invariant
                o == self@,
                all == o.sketches,
                p == o.made_for(fqbn@),
                made.deep_view() == all.take(k as int).filter(p),
        {
            let s = &self.sketches[k];
            assert(s@ == all[k as int]);
            proof {
                lemma_filter_take(all, p, k as int);
            }
            let hit = match self.sketch_fqbn.get(s.as_str()) {
                Some(f) => text::same(f.as_str(), fqbn.as_str()),
                None => false,
            };
            if hit {
                push_item(&mut made, s.clone());
            }
        }
        assert(all.take(all.len() as int) =~= all);
        let i: usize = self.boards.len();
        push_item(&mut self.boards, Target { name, fqbn, port, sketch: None });
        self.new_pane(i);
        self.sel = i;
        self.tab = Tab::Project;
        if i == 0 {
            self.active = 0;
        }
        assert(made.deep_view().len() == made.len());
        if made.len() == 1 {
            assert(made.deep_view()[0] == made@[0]@);
            let only = made[0].clone();
            self.set_sketch(i, only);
        } else {
            self.save(None);
            self.open(Pick::Sketch, i);
        }
    }

    pub fn add_from_port(&mut self, j: usize)
        requires
            j < old(self)@.ports.len(),
            old(self)@.paired(),
        ensures
            final(self)@ == old(self)@.add_from_port(j as int),
    {
        let d = &self.ports[j];
        assert(d.deep_view() == self@.ports[j as int]);
        let address = d.port.address.clone();
        match find_known_board(d) {
            Some(k) => {
                let (name, fqbn) = (
                    d.matching_boards[k].name.clone(),
                    d.matching_boards[k].fqbn.clone(),
                );
                self.add_board(name, fqbn, Some(address));
            },
            None => {
                self.pending_port = Some(address);
                self.open(Pick::AddBoard, 0);
            },
        }
    }

    pub fn apply(&mut self, kind: Pick, i: usize, label: String, detail: String)
        requires
            old(self)@.paired(),
        ensures
            final(self)@ == old(self)@.apply(kind, i as int, label@, detail@),
    {
        if let Some(core) = text::strip_prefix(detail.as_str(), "install ") {
            self.pending_port = None;
            return self.install_core(core.as_str());
        }
        let ghost bs = self.boards.deep_view();
        assert(i < bs.len() ==> bs[i as int] == self.boards@[i as int].deep_view());
        match kind {
            Pick::AddBoard => {
                let port = self.pending_port.take();
                self.add_board(label, detail, port);
            },
            Pick::Board => {
                if i < self.boards.len() {
                    self.boards[i].name = label;
                    self.boards[i].fqbn = detail;
                    assert(self.boards.deep_view() =~= bs.update(
                        i as int,
                        TargetView { name: label@, fqbn: detail@, ..bs[i as int] },
                    ));
                    self.save(Some(i));
                }
            },
            Pick::Sketch => self.set_sketch(i, label),
            Pick::Port => {
                if i < self.boards.len() {
                    self.boards[i].port = Some(label);
                    assert(self.boards.deep_view() =~= bs.update(
                        i as int,
                        TargetView { port: Some(label@), ..bs[i as int] },
                    ));
                    self.save(Some(i));
                }
            },
        }
    }
}

} // verus!
