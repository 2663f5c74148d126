//! Writing the project file and telling sketch folders their boards.
use vstd::prelude::*;
use vstd::string::*;

use super::state::{Action, ActionView, App, AppView};
use crate::cli::{bare_port, Port, PortView};
use crate::lists::push_item;
use crate::project::Target;
use crate::sketch;

verus! {

impl AppView {
    /// The project is a single sketch: there is no project file to write.
    pub open spec fn single(self) -> bool {
        self.root_is_sketch && self.boards.len() <= 1
    }

    /// The port that board `i` is told to its sketch folder with: the one it is
    /// at, or else the one it remembers.
    pub open spec fn known_port(self, i: int) -> Option<PortView> {
        match self.port_of(i) {
            Some(d) => Some(d.port),
            None => match self.boards[i].port {
                Some(a) => Some(bare_port(a)),
                None => None,
            },
        }
    }

    /// The sketch folder of board `i` told its board, where the board has one.
    pub open spec fn mirror(self, i: int, with_baud: bool) -> AppView {
        if 0 <= i < self.boards.len() {
            match self.boards[i].sketch {
                Some(rel) => if sketch::folder(rel) {
                    AppView {
                        sketch_fqbn: self.sketch_fqbn.insert(rel, self.boards[i].fqbn),
                        ..self
                    }.act(
                        ActionView::Attach {
                            rel,
                            fqbn: self.boards[i].fqbn,
                            port: self.known_port(i),
                            baud: if with_baud {
                                Some(self.panes[i].baud)
                            } else {
                                None
                            },
                        },
                    )
                } else {
                    self
                },
                None => self,
            }
        } else {
            self
        }
    }

    /// The state after saving: nothing is written over a project file that did
    /// not parse.
    pub open spec fn save(self, mirror: Option<int>, with_baud: bool) -> AppView {
        if self.project_err is Some {
            self.say("✗ fluxus.yaml didn't parse, not overwriting it — fix it by hand"@)
        } else {
            let kept = if self.single() {
                self
            } else {
                self.act(ActionView::SaveProject(self.boards))
            };
            match mirror {
                Some(i) => kept.mirror(i, with_baud),
                None => kept,
            }
        }
    }
}

pub(crate) fn targets_of(v: &Vec<Target>) -> (r: Vec<Target>)
    ensures
        r.deep_view() == v.deep_view(),
{
    let mut out: Vec<Target> = Vec::new();
    for i in 0..v.len()
        invariant
            out.deep_view() == v.deep_view().take(i as int),
    {
        push_item(&mut out, v[i].clone());
        assert(out.deep_view() =~= v.deep_view().take(i + 1));
    }
    assert(out.deep_view() =~= v.deep_view());
    out
}

impl App {
    pub(crate) fn say(&mut self, line: String)
        ensures
            final(self)@ == old(self)@.say(line@),
    {
        push_item(&mut self.log, line);
    }

    pub(crate) fn act(&mut self, action: Action)
        ensures
            final(self)@ == old(self)@.act(action.deep_view()),
    {
        push_item(&mut self.actions, action);
    }

    fn mirror(&mut self, i: usize, with_baud: bool)
        requires
            with_baud && i < old(self)@.boards.len() ==> i < old(self)@.panes.len(),
        ensures
            final(self)@ == old(self)@.mirror(i as int, with_baud),
    {
        if i >= self.boards.len() {
            return;
        }
        let t = self.boards[i].clone();
        assert(t.deep_view() == self@.boards[i as int]);
        let rel = match t.sketch {
            Some(s) => s,
            None => {
                return;
            },
        };
        if !sketch::is_folder(rel.as_str()) {
            return;
        }
        let port = match self.port_of(i) {
            Some(d) => Some(d.port.clone()),
            None => match t.port {
                Some(a) => Some(Port::at(a)),
                None => None,
            },
        };
        let baud = if with_baud {
            assert(self.panes@[i as int].deep_view() == self@.panes[i as int]);
            Some(self.panes[i].baud)
        } else {
            None
        };
        self.sketch_fqbn.insert(rel.as_str(), t.fqbn.as_str());
        self.act(Action::Attach { rel, fqbn: t.fqbn, port, baud });
    }

    /// Writes the project file, and tells board `mirror`'s sketch folder its board.
    pub fn save_with(&mut self, mirror: Option<usize>, with_baud: bool)
        requires
            with_baud ==> (mirror matches Some(i) ==> (i < old(self)@.boards.len() ==> i < old(
                self,
            )@.panes.len())),
        ensures
            final(self)@ == old(self)@.save(crate::project::spot(mirror), with_baud),
    {
        if self.project_err.is_some() {
            return self.say(
                "✗ fluxus.yaml didn't parse, not overwriting it — fix it by hand".to_owned(),
            );
        }
        let single = self.root_is_sketch && self.boards.len() <= 1;
        if !single {
            let boards = targets_of(&self.boards);
            self.act(Action::SaveProject(boards));
        }
        if let Some(i) = mirror {
            self.mirror(i, with_baud);
        }
    }

    pub fn save(&mut self, mirror: Option<usize>)
        ensures
            final(self)@ == old(self)@.save(crate::project::spot(mirror), false),
    {
        self.save_with(mirror, false);
    }
}

} // verus!
