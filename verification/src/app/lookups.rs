//! What can be read off the state: ports, boards, and what a picker offers.
use vstd::prelude::*;
use vstd::string::*;

use super::kinds;
use super::state::{App, AppView, Pick, Tab};
use crate::cli::{Board, BoardView, Detected, DetectedView};
use crate::lists::{
    lemma_empty, lemma_filter_none, lemma_filter_take, lemma_places, nums, place, places, push_item,
    push_num, seek,
};
use crate::project::{law_port_fits, resolve, resolved, spot, spots, Target, TargetView};
use crate::text;

verus! {

// -- ports --

/// Port `j` is no board's.
pub open spec fn unlinked(links: Seq<Option<int>>) -> spec_fn(int) -> bool {
    |j: int| !links.contains(Some(j))
}

/// The port is one that boards are found at, or reports a known board.
pub open spec fn boardlike(d: DetectedView) -> bool {
    ||| text::holds(d.port.protocol_label, "USB"@)
    ||| exists|k: int|
        0 <= k < d.matching_boards.len() && (#[trigger] d.matching_boards[k]).fqbn.len() > 0
}

pub open spec fn boardlike_at(ports: Seq<DetectedView>) -> spec_fn(int) -> bool {
    |j: int| boardlike(ports[j])
}

/// The name of a kind of board; the kind itself where it is not known.
pub open spec fn kind_name(
    all: Option<Result<Seq<BoardView>, Seq<char>>>,
    fqbn: Seq<char>,
) -> Seq<char> {
    match all {
        Some(Ok(v)) => match place(v.len() as int, of_kind(v, fqbn)) {
            Some(i) => v[i].name,
            None => fqbn,
        },
        _ => fqbn,
    }
}

pub open spec fn of_kind(v: Seq<BoardView>, fqbn: Seq<char>) -> spec_fn(int) -> bool {
    |i: int| v[i].fqbn == fqbn
}

// -- what a picker offers --

pub open spec fn installed() -> spec_fn(BoardView) -> bool {
    |b: BoardView| b.fqbn.len() > 0
}

pub open spec fn missing() -> spec_fn(BoardView) -> bool {
    |b: BoardView| b.fqbn.len() == 0
}

/// A board as it is offered: its kind, or the core to install for it.
pub open spec fn offer(b: BoardView) -> (Seq<char>, Seq<char>) {
    (
        b.name,
        if b.fqbn.len() == 0 {
            "install "@ + b.core
        } else {
            b.fqbn
        },
    )
}

/// The boards on offer: those that can be built for come first.
pub open spec fn board_offers(all: Seq<BoardView>) -> Seq<(Seq<char>, Seq<char>)> {
    (all.filter(installed()) + all.filter(missing())).map_values(|b: BoardView| offer(b))
}

/// A sketch as it is offered to a board of kind `fqbn`.
pub open spec fn sketch_offer(
    made_for: Map<Seq<char>, Seq<char>>,
    fqbn: Option<Seq<char>>,
    rel: Seq<char>,
) -> (Seq<char>, Seq<char>) {
    (
        rel,
        if fqbn is Some && kinds::at(made_for, rel) == fqbn {
            "made for this board"@
        } else {
            Seq::empty()
        },
    )
}

pub open spec fn noted() -> spec_fn((Seq<char>, Seq<char>)) -> bool {
    |x: (Seq<char>, Seq<char>)| x.1.len() > 0
}

pub open spec fn plain() -> spec_fn((Seq<char>, Seq<char>)) -> bool {
    |x: (Seq<char>, Seq<char>)| x.1.len() == 0
}

/// The sketches on offer: those made for the board come first.
pub open spec fn sketch_offers(
    sketches: Seq<Seq<char>>,
    made_for: Map<Seq<char>, Seq<char>>,
    fqbn: Option<Seq<char>>,
) -> Seq<(Seq<char>, Seq<char>)> {
    let v = sketches.map_values(|s: Seq<char>| sketch_offer(made_for, fqbn, s));
    v.filter(noted()) + v.filter(plain())
}

pub open spec fn board_names(d: DetectedView) -> Seq<Seq<char>> {
    d.matching_boards.map_values(|b: BoardView| b.name)
}

pub open spec fn port_offers(ports: Seq<DetectedView>) -> Seq<(Seq<char>, Seq<char>)> {
    ports.map_values(
        |d: DetectedView| (d.port.address, text::joined(board_names(d), ", "@)),
    )
}

/// What was typed is in the label or in the detail.
pub open spec fn fits(x: (Seq<char>, Seq<char>), query: Seq<char>) -> bool {
    text::holds(x.0, query) || text::holds(x.1, query)
}

/// An offer in lowercase.
pub open spec fn lower(x: (Seq<char>, Seq<char>)) -> (Seq<char>, Seq<char>) {
    (text::lowercased(x.0), text::lowercased(x.1))
}

/// What was typed is in the label or in the detail, capitals aside.
pub open spec fn matching(query: Seq<char>) -> spec_fn((Seq<char>, Seq<char>)) -> bool {
    |x: (Seq<char>, Seq<char>)| fits(lower(x), text::lowercased(query))
}

/// The items whose counterparts in `keys` the query is in.
pub open spec fn narrow(
    items: Seq<(Seq<char>, Seq<char>)>,
    keys: Seq<(Seq<char>, Seq<char>)>,
    query: Seq<char>,
) -> Seq<(Seq<char>, Seq<char>)>
    decreases items.len(),
{
    if items.len() == 0 {
        Seq::empty()
    } else {
        let fewer = narrow(items.drop_last(), keys.drop_last(), query);
        if fits(keys.last(), query) {
            fewer.push(items.last())
        } else {
            fewer
        }
    }
}

proof fn lemma_narrow(items: Seq<(Seq<char>, Seq<char>)>, query: Seq<char>)
    ensures
        narrow(
            items,
            items.map_values(|x: (Seq<char>, Seq<char>)| lower(x)),
            text::lowercased(query),
        ) == items.filter(matching(query)),
    decreases items.len(),
{
    reveal(Seq::filter);
    let keys = items.map_values(|x: (Seq<char>, Seq<char>)| lower(x));
    if items.len() > 0 {
        let fewer = items.drop_last();
        lemma_narrow(fewer, query);
        assert(keys.drop_last() =~= fewer.map_values(|x: (Seq<char>, Seq<char>)| lower(x)));
    } else {
        lemma_filter_none(items, matching(query));
    }
}

impl AppView {
    pub open spec fn wants_defaults(self) -> bool {
        self.root_is_sketch && self.boards.len() == 0
    }

    pub open spec fn target(self) -> Option<TargetView> {
        if 0 <= self.active < self.boards.len() {
            Some(self.boards[self.active])
        } else {
            None
        }
    }

    /// The port of each board.
    pub open spec fn links(self) -> Seq<Option<int>> {
        resolved(self.boards, self.ports)
    }

    pub open spec fn port_of(self, i: int) -> Option<DetectedView> {
        if 0 <= i < self.boards.len() {
            match self.links()[i] {
                Some(j) => Some(self.ports[j]),
                None => None,
            }
        } else {
            None
        }
    }

    /// The ports that no board has.
    pub open spec fn free_ports(self) -> Seq<int> {
        places(self.ports.len(), unlinked(self.links()))
    }

    pub open spec fn no_boards(self) -> Seq<char> {
        let n = places(self.ports.len(), boardlike_at(self.ports)).len();
        if n == 0 {
            "no boards in project — plug one in, or press a to add one"@
        } else if n == 1 {
            "detected 1 board — press 3, then enter to add it"@
        } else {
            "detected "@ + text::decimal(n) + " boards — press 3, then enter to add them"@
        }
    }

    pub open spec fn on_port_row(self) -> bool {
        self.tab == Tab::Project && self.sel >= self.boards.len()
    }

    pub open spec fn board_name(self, fqbn: Seq<char>) -> Seq<char> {
        kind_name(self.all_boards, fqbn)
    }

    /// All that a picker has to offer.
    pub open spec fn offers(self, kind: Pick, target: int) -> Seq<(Seq<char>, Seq<char>)> {
        match kind {
            Pick::AddBoard | Pick::Board => match self.all_boards {
                Some(Ok(all)) => board_offers(all),
                _ => Seq::empty(),
            },
            Pick::Sketch => sketch_offers(
                self.sketches,
                self.sketch_fqbn,
                if 0 <= target < self.boards.len() {
                    Some(self.boards[target].fqbn)
                } else {
                    None
                },
            ),
            Pick::Port => port_offers(self.ports),
        }
    }

    /// What the open picker offers of what was typed.
    pub open spec fn picks(self) -> Seq<(Seq<char>, Seq<char>)> {
        match self.picker {
            None => Seq::empty(),
            Some(p) => self.offers(p.kind, p.target).filter(matching(p.query)),
        }
    }

    /// Pane `i` is connected under `id`.
    pub open spec fn has_id(self, id: int) -> spec_fn(int) -> bool {
        |i: int| self.panes[i].link matches Some(l) && l.id == id
    }

    pub open spec fn pane_of(self, id: int) -> Option<int> {
        place(self.panes.len() as int, self.has_id(id))
    }

    pub open spec fn is_shown(self) -> spec_fn(int) -> bool {
        |i: int| i == self.active || self.panes[i].link is Some
    }

    pub open spec fn shown_panes(self) -> Seq<int> {
        places(self.panes.len(), self.is_shown())
    }
}

/// A query of no characters keeps every item.
pub proof fn law_an_empty_query_keeps_everything(
    items: Seq<(Seq<char>, Seq<char>)>,
    keys: Seq<(Seq<char>, Seq<char>)>,
    query: Seq<char>,
)
    requires
        keys.len() == items.len(),
        query.len() == 0,
    ensures
        narrow(items, keys, query) == items,
    decreases items.len(),
{
    if items.len() > 0 {
        law_an_empty_query_keeps_everything(items.drop_last(), keys.drop_last(), query);
        let label = keys.last().0;
        assert(label.subrange(0, 0) =~= query);
        assert(text::stands_at(label, query, 0));
        assert(items.drop_last().push(items.last()) =~= items);
    } else {
        assert(items =~= Seq::empty());
    }
}

/// Keeps the items whose counterparts in `keys` the query is in.
pub fn narrow_down(
    items: &Vec<(String, String)>,
    keys: &Vec<(String, String)>,
    query: &str,
) -> (r: Vec<(String, String)>)
    requires
        keys@.len() == items@.len(),
    ensures
        r.deep_view() == narrow(items.deep_view(), keys.deep_view(), query@),
{
    let ghost (v, k) = (items.deep_view(), keys.deep_view());
    let mut out: Vec<(String, String)> = Vec::new();
    proof {
        lemma_empty(out);
    }
    for i in 0..items.len()
        invariant
            keys@.len() == items@.len(),
            v == items.deep_view(),
            k == keys.deep_view(),
            out.deep_view() == narrow(v.take(i as int), k.take(i as int), query@),
    {
        let (x, y) = (&items[i], &keys[i]);
        assert(x.deep_view() == v[i as int] && y.deep_view() == k[i as int]);
        assert(v.take(i + 1).drop_last() =~= v.take(i as int));
        assert(k.take(i + 1).drop_last() =~= k.take(i as int));
        if text::contains(y.0.as_str(), query) || text::contains(y.1.as_str(), query) {
            push_item(&mut out, (x.0.clone(), x.1.clone()));
        }
    }
    assert(v.take(v.len() as int) =~= v && k.take(k.len() as int) =~= k);
    out
}

fn is_boardlike(d: &Detected) -> (r: bool)
    ensures
        r == boardlike(d.deep_view()),
{
    if text::contains(d.port.protocol_label.as_str(), "USB") {
        return true;
    }
    let ghost bs = d.deep_view().matching_boards;
    for k in 0..d.matching_boards.len()
        invariant
            bs == d.deep_view().matching_boards,
            forall|i: int| 0 <= i < k ==> (#[trigger] bs[i]).fqbn.len() == 0,
    {
        assert(bs[k as int] == d.matching_boards@[k as int].deep_view());
        if !d.matching_boards[k].fqbn.as_str().is_empty() {
            assert(bs[k as int].fqbn.len() > 0);
            return true;
        }
    }
    false
}

/// The elements of one list and then those of another.
fn append_offers(a: &mut Vec<(String, String)>, b: Vec<(String, String)>)
    ensures
        final(a).deep_view() == old(a).deep_view() + b.deep_view(),
{
    let mut b = b;
    let ghost x = a.deep_view();
    let ghost y = b.deep_view();
    a.append(&mut b);
    assert(a.deep_view() =~= x + y);
}

fn offer_boards(all: &Vec<Board>) -> (r: Vec<(String, String)>)
    ensures
        r.deep_view() == board_offers(all.deep_view()),
{
    let ghost v = all.deep_view();
    let ghost f = |b: BoardView| offer(b);
    let mut first: Vec<(String, String)> = Vec::new();
    let mut rest: Vec<(String, String)> = Vec::new();
    proof {
        lemma_filter_none(v.take(0), installed());
        lemma_filter_none(v.take(0), missing());
        assert(first.deep_view() =~= v.take(0).filter(installed()).map_values(f));
        assert(rest.deep_view() =~= v.take(0).filter(missing()).map_values(f));
    }
    for i in 0..all.len()
        invariant
            v == all.deep_view(),
            f == (|b: BoardView| offer(b)),
            first.deep_view() == v.take(i as int).filter(installed()).map_values(f),
            rest.deep_view() == v.take(i as int).filter(missing()).map_values(f),
    {
        let b = &all[i];
        assert(b.deep_view() == v[i as int]);
        proof {
            lemma_filter_take(v, installed(), i as int);
            lemma_filter_take(v, missing(), i as int);
        }
        let ghost a0 = v.take(i as int).filter(installed());
        let ghost b0 = v.take(i as int).filter(missing());
        if b.fqbn.as_str().is_empty() {
            push_item(
                &mut rest,
                (b.name.clone(), text::cat2("install ", b.core.as_str())),
            );
            assert(rest.deep_view() =~= b0.push(v[i as int]).map_values(f));
        } else {
            push_item(&mut first, (b.name.clone(), b.fqbn.clone()));
            assert(first.deep_view() =~= a0.push(v[i as int]).map_values(f));
        }
    }
    assert(v.take(v.len() as int) =~= v);
    append_offers(&mut first, rest);
    assert(first.deep_view() =~= board_offers(v));
    first
}

fn offer_ports(ports: &Vec<Detected>) -> (r: Vec<(String, String)>)
    ensures
        r.deep_view() == port_offers(ports.deep_view()),
{
    let ghost ds = ports.deep_view();
    let mut out: Vec<(String, String)> = Vec::new();
    proof {
        assert(out.deep_view() =~= port_offers(ds).take(0));
    }
    for j in 0..ports.len()
        invariant
            ds == ports.deep_view(),
            out.deep_view() == port_offers(ds).take(j as int),
    {
        let d = &ports[j];
        assert(d.deep_view() == ds[j as int]);
        let ghost bs = d.deep_view().matching_boards;
        let mut names: Vec<String> = Vec::new();
        assert(names.deep_view() =~= board_names(d.deep_view()).take(0));
        for k in 0..d.matching_boards.len()
            invariant
                bs == d.deep_view().matching_boards,
                names.deep_view() == board_names(d.deep_view()).take(k as int),
        {
            assert(bs[k as int] == d.matching_boards@[k as int].deep_view());
            push_item(&mut names, d.matching_boards[k].name.clone());
            assert(names.deep_view() =~= board_names(d.deep_view()).take(k + 1));
        }
        assert(names.deep_view() =~= board_names(d.deep_view()));
        push_item(&mut out, (d.port.address.clone(), text::join(&names, ", ")));
        assert(out.deep_view() =~= port_offers(ds).take(j + 1));
    }
    assert(out.deep_view() =~= port_offers(ds));
    out
}

impl App {
    pub fn wants_defaults(&self) -> (r: bool)
        ensures
            r == self@.wants_defaults(),
    {
        self.root_is_sketch && self.boards.len() == 0
    }

    /// The active board.
    pub fn target(&self) -> (r: Option<&Target>)
        ensures
            r.deep_view() == self@.target(),
    {
        if self.active < self.boards.len() {
            assert(self.boards@[self.active as int].deep_view() == self@.boards[self@.active]);
            Some(&self.boards[self.active])
        } else {
            None
        }
    }

    pub fn links(&self) -> (r: Vec<Option<usize>>)
        ensures
            spots(r@) == self@.links(),
            r.len() == self.boards.len(),
            forall|i: int|
                0 <= i < r.len() ==> (#[trigger] r@[i] matches Some(j) ==> j < self.ports.len()),
    {
        let (boards, ports) = (self.boards.as_slice(), self.ports.as_slice());
        let r = resolve(boards, ports);
        proof {
            let bs = self@.boards;
            let ds = self@.ports;
            assert(boards.deep_view() =~= bs);
            assert(ports.deep_view() =~= ds);
            assert(r.len() == bs.len()) by {
                crate::project::lemma_resolved_len(bs, ds, bs.len());
                assert(spots(r@).len() == r@.len());
            }
            assert forall|i: int| 0 <= i < r.len() implies (#[trigger] r@[i] matches Some(j) ==> j
                < self.ports.len()) by {
                assert(spots(r@)[i] == spot(r@[i]));
                if r@[i] is Some {
                    law_port_fits(bs, ds, i);
                }
            }
        }
        r
    }

    pub fn port_of(&self, i: usize) -> (r: Option<&Detected>)
        ensures
            r.deep_view() == self@.port_of(i as int),
    {
        let links = self.links();
        if i < links.len() {
            assert(spots(links@)[i as int] == spot(links@[i as int]));
            match links[i] {
                Some(j) => {
                    assert(self.ports@[j as int].deep_view() == self@.ports[j as int]);
                    Some(&self.ports[j])
                },
                None => None,
            }
        } else {
            None
        }
    }

    pub fn free_ports(&self) -> (r: Vec<usize>)
        ensures
            nums(r@) == self@.free_ports(),
            forall|k: int| 0 <= k < r.len() ==> (#[trigger] r@[k]) < self.ports.len(),
            r.len() <= self.ports.len(),
    {
        let links = self.links();
        let ghost ls = self@.links();
        let mut out: Vec<usize> = Vec::new();
        assert(nums(out@) =~= Seq::<int>::empty());
        for j in 0..self.ports.len()
            invariant
                ls == spots(links@),
                nums(out@) == places(j as nat, unlinked(ls)),
        {
            let mut k: usize = 0;
            while k < links.len() && !(links[k].is_some() && links[k].unwrap() == j)
                invariant
                    k <= links.len(),
                    ls == spots(links@),
                    forall|m: int| 0 <= m < k ==> ls[m] != Some(j as int),
                decreases links.len() - k,
            {
                assert(ls[k as int] == spot(links@[k as int]));
                k = k + 1;
            }
            if k == links.len() {
                assert(unlinked(ls)(j as int));
                push_num(&mut out, j);
            } else {
                assert(ls[k as int] == spot(links@[k as int]));
                assert(ls.contains(Some(j as int)));
            }
        }
        proof {
            lemma_places(self.ports.len() as nat, unlinked(ls));
            assert forall|k: int| 0 <= k < out.len() implies (#[trigger] out@[k]) < self.ports.len() by {
                assert(nums(out@)[k] == out@[k]);
            }
            assert(nums(out@).len() == out@.len());
        }
        out
    }

    /// What to say where there is no board to work with.
    pub fn no_boards(&self) -> (r: String)
        ensures
            r@ == self@.no_boards(),
    {
        let ghost ds = self@.ports;
        let mut n: usize = 0;
        for j in 0..self.ports.len()
            invariant
                ds == self.ports.deep_view(),
                n <= j,
                n == places(j as nat, boardlike_at(ds)).len(),
        {
            assert(ds[j as int] == self.ports@[j as int].deep_view());
            if is_boardlike(&self.ports[j]) {
                n = n + 1;
            }
        }
        if n == 0 {
            "no boards in project — plug one in, or press a to add one".to_owned()
        } else if n == 1 {
            "detected 1 board — press 3, then enter to add it".to_owned()
        } else {
            let count = text::number(n as u64);
            text::cat3(
                "detected ",
                count.as_str(),
                " boards — press 3, then enter to add them",
            )
        }
    }

    pub fn on_port_row(&self) -> (r: bool)
        ensures
            r == self@.on_port_row(),
    {
        self.tab == Tab::Project && self.sel >= self.boards.len()
    }

    pub fn board_name(&self, fqbn: &str) -> (r: String)
        ensures
            r@ == self@.board_name(fqbn@),
    {
        if let Some(Ok(all)) = &self.all_boards {
            let ghost v = all.deep_view();
            let ghost p = of_kind(v, fqbn@);
            for i in 0..all.len()
                invariant
                    v == all.deep_view(),
                    p == of_kind(v, fqbn@),
                    self@.all_boards == Some(Ok::<Seq<BoardView>, Seq<char>>(v)),
                    seek(0, v.len() as int, p) == seek(i as int, v.len() as int, p),
            {
                assert(v[i as int] == all@[i as int].deep_view());
                if text::same(all[i].fqbn.as_str(), fqbn) {
                    return all[i].name.clone();
                }
            }
        }
        fqbn.to_owned()
    }

    fn offer_sketches(&self, fqbn: Option<&String>) -> (r: Vec<(String, String)>)
        ensures
            r.deep_view() == sketch_offers(self@.sketches, self@.sketch_fqbn, fqbn.deep_view()),
    {
        let ghost made = self@.sketch_fqbn;
        let ghost want = fqbn.deep_view();
        let ghost v = self@.sketches.map_values(|s: Seq<char>| sketch_offer(made, want, s));
        let mut first: Vec<(String, String)> = Vec::new();
        let mut rest: Vec<(String, String)> = Vec::new();
        proof {
            lemma_filter_none(v.take(0), noted());
            lemma_filter_none(v.take(0), plain());
            lemma_empty(first);
            reveal_strlit("made for this board");
        }
        for i in 0..self.sketches.len()
            invariant
                "made for this board"@.len() > 0,
                made == self@.sketch_fqbn,
                want == fqbn.deep_view(),
                v == self@.sketches.map_values(|s: Seq<char>| sketch_offer(made, want, s)),
                first.deep_view() == v.take(i as int).filter(noted()),
                rest.deep_view() == v.take(i as int).filter(plain()),
        {
            let s = &self.sketches[i];
            assert(s@ == self@.sketches[i as int]);
            proof {
                lemma_filter_take(v, noted(), i as int);
                lemma_filter_take(v, plain(), i as int);
            }
            let hit = match (fqbn, self.sketch_fqbn.get(s.as_str())) {
                (Some(a), Some(b)) => text::same(a.as_str(), b.as_str()),
                _ => false,
            };
            if hit {
                push_item(&mut first, (s.clone(), "made for this board".to_owned()));
            } else {
                push_item(&mut rest, (s.clone(), String::new()));
            }
        }
        assert(v.take(v.len() as int) =~= v);
        append_offers(&mut first, rest);
        first
    }

    fn offer_all(&self, kind: Pick, target: usize) -> (r: Vec<(String, String)>)
        ensures
            r.deep_view() == self@.offers(kind, target as int),
    {
        match kind {
            Pick::AddBoard | Pick::Board => match &self.all_boards {
                Some(Ok(all)) => offer_boards(all),
                _ => {
                    let none: Vec<(String, String)> = Vec::new();
                    proof {
                        lemma_empty(none);
                    }
                    none
                },
            },
            Pick::Sketch => {
                if target < self.boards.len() {
                    assert(self.boards@[target as int].deep_view() == self@.boards[target as int]);
                    self.offer_sketches(Some(&self.boards[target].fqbn))
                } else {
                    self.offer_sketches(None)
                }
            },
            Pick::Port => offer_ports(&self.ports),
        }
    }

    /// The labels and details that the open picker offers: all there are, as long
    /// as nothing is typed.
    pub fn picks(&self) -> (r: Vec<(String, String)>)
        ensures
            r.deep_view() == self@.picks(),
            self@.picker matches Some(p) ==> (p.query.len() == 0 ==> r.deep_view() == self@.offers(
                p.kind,
                p.target,
            )),
    {
        let p = match &self.picker {
            None => {
                let none: Vec<(String, String)> = Vec::new();
                proof {
                    lemma_empty(none);
                }
                return none;
            },
            Some(p) => p,
        };
        let items = self.offer_all(p.kind, p.target);
        let ghost v = items.deep_view();
        let ghost want = v.map_values(|x: (Seq<char>, Seq<char>)| lower(x));
        let mut keys: Vec<(String, String)> = Vec::new();
        for i in 0..items.len()
            invariant
                v == items.deep_view(),
                want == v.map_values(|x: (Seq<char>, Seq<char>)| lower(x)),
                keys.deep_view() == want.take(i as int),
        {
            assert(items@[i as int].deep_view() == v[i as int]);
            let (a, b) = (text::lowercase(items[i].0.as_str()), text::lowercase(items[i].1.as_str()));
            push_item(&mut keys, (a, b));
            assert(keys.deep_view() =~= want.take(i + 1));
        }
        assert(keys.deep_view() =~= want);
        assert(keys.deep_view().len() == keys@.len());
        let query = text::lowercase(p.query.as_str());
        proof {
            lemma_narrow(v, p.query@);
            if p.query@.len() == 0 {
                law_an_empty_query_keeps_everything(v, want, query@);
            }
        }
        narrow_down(&items, &keys, query.as_str())
    }

    /// The pane that is connected under `id`.
    pub fn pane_of(&self, id: u64) -> (r: Option<usize>)
        ensures
            spot(r) == self@.pane_of(id as int),
            r matches Some(i) ==> i < self.panes.len() && self@.linked(i as int),
    {
        let ghost ps = self@.panes;
        let ghost p = self@.has_id(id as int);
        for i in 0..self.panes.len()
            invariant
                ps == self.panes.deep_view(),
                p == self@.has_id(id as int),
                seek(0, ps.len() as int, p) == seek(i as int, ps.len() as int, p),
        {
            assert(ps[i as int] == self.panes@[i as int].deep_view());
            if let Some(l) = &self.panes[i].link {
                if l.id == id {
                    return Some(i);
                }
            }
        }
        None
    }

    /// The panes on the screen: the active one and those that are connected.
    pub fn shown_panes(&self) -> (r: Vec<usize>)
        ensures
            nums(r@) == self@.shown_panes(),
            forall|k: int| 0 <= k < r.len() ==> (#[trigger] r@[k]) < self.panes.len(),
    {
        let ghost ps = self@.panes;
        let ghost p = self@.is_shown();
        let mut out: Vec<usize> = Vec::new();
        assert(nums(out@) =~= Seq::<int>::empty());
        for i in 0..self.panes.len()
            invariant
                ps == self.panes.deep_view(),
                p == self@.is_shown(),
                nums(out@) == places(i as nat, p),
                forall|k: int| 0 <= k < out.len() ==> (#[trigger] out@[k]) < i,
        {
            assert(ps[i as int] == self.panes@[i as int].deep_view());
            if i == self.active || self.panes[i].link.is_some() {
                push_num(&mut out, i);
            }
        }
        out
    }
}

} // verus!
