//! What the lists offer, and what is read off the state.
use vstd::prelude::*;

use super::effects::lemma_same_ascending;
use super::lookups::{
    boardlike, boardlike_at, installed, matching, missing, noted, offer, plain, sketch_offer,
};
use super::state::{AppView, Pick, PickerView, Tab};
use crate::cli::{BoardView, DetectedView};
use crate::lists::{lemma_places, lemma_seek, places, seek};
use crate::project::resolved;
use crate::text;

verus! {

// -- boards --


/// All boards are offered, in their order: first those that can be built for, each
/// by its name and kind, then those whose core is missing, each by its name and
/// what is to be installed for it.
pub proof fn law_boards_on_offer(s: AppView, all: Seq<BoardView>, target: int)
    requires
        s.all_boards == Some(Ok::<Seq<BoardView>, Seq<char>>(all)),
    ensures
        ({
            let first = all.filter(|b: BoardView| b.fqbn.len() > 0);
            let rest = all.filter(|b: BoardView| b.fqbn.len() == 0);
            let o = s.offers(Pick::Board, target);
            &&& o.len() == first.len() + rest.len()
            &&& forall|k: int|
                0 <= k < first.len() ==> #[trigger] o[k] == (first[k].name, first[k].fqbn)
            &&& forall|k: int|
                first.len() <= k < o.len() ==> #[trigger] o[k] == (
                    rest[k - first.len()].name,
                    "install "@ + rest[k - first.len()].core,
                )
        }),
        s.offers(Pick::AddBoard, target) == s.offers(Pick::Board, target),
{
    let p = |b: BoardView| b.fqbn.len() > 0;
    let q = |b: BoardView| b.fqbn.len() == 0;
    assert(p =~= installed() && q =~= missing());
    let first = all.filter(p);
    let rest = all.filter(q);
    let o = s.offers(Pick::Board, target);
    lemma_all_pass(all, p);
    lemma_all_pass(all, q);
    let both = first + rest;
    assert(o == both.map_values(|b: BoardView| offer(b)));
    assert forall|k: int| 0 <= k < first.len() implies #[trigger] o[k] == (
        first[k].name,
        first[k].fqbn,
    ) by {
        assert(both[k] == first[k]);
        assert(p(first[k]));
    }
    assert forall|k: int| first.len() <= k < o.len() implies #[trigger] o[k] == (
        rest[k - first.len()].name,
        "install "@ + rest[k - first.len()].core,
    ) by {
        assert(both[k] == rest[k - first.len()]);
        assert(q(rest[k - first.len()]));
    }
}

proof fn lemma_all_pass<A>(s: Seq<A>, p: spec_fn(A) -> bool)
    ensures
        forall|k: int| 0 <= k < s.filter(p).len() ==> p(#[trigger] s.filter(p)[k]),
    decreases s.len(),
{
    reveal(Seq::filter);
    if s.len() > 0 {
        lemma_all_pass(s.drop_last(), p);
    }
}

/// No board is left out of the list.
pub proof fn law_no_board_is_left_out(s: AppView, all: Seq<BoardView>, target: int, i: int)
    requires
        s.all_boards == Some(Ok::<Seq<BoardView>, Seq<char>>(all)),
        0 <= i < all.len(),
    ensures
        all[i].fqbn.len() > 0 ==> s.offers(Pick::Board, target).contains(
            (all[i].name, all[i].fqbn),
        ),
        all[i].fqbn.len() == 0 ==> s.offers(Pick::Board, target).contains(
            (all[i].name, "install "@ + all[i].core),
        ),
        s.offers(Pick::Board, target).len() == all.len(),
{
    let first = all.filter(installed());
    let rest = all.filter(missing());
    let both = first + rest;
    let o = s.offers(Pick::Board, target);
    assert(o == both.map_values(|b: BoardView| offer(b)));
    lemma_parted_len(all);
    if all[i].fqbn.len() > 0 {
        lemma_passes(all, installed(), i);
        let k = choose|k: int| 0 <= k < first.len() && first[k] == all[i];
        assert(both[k] == all[i]);
        assert(o[k] == offer(all[i]));
    } else {
        lemma_passes(all, missing(), i);
        let k = choose|k: int| 0 <= k < rest.len() && rest[k] == all[i];
        assert(both[first.len() + k] == all[i]);
        assert(o[first.len() + k] == offer(all[i]));
    }
}

proof fn lemma_parted_len(all: Seq<BoardView>)
    ensures
        all.filter(installed()).len() + all.filter(missing()).len() == all.len(),
    decreases all.len(),
{
    reveal(Seq::filter);
    if all.len() > 0 {
        lemma_parted_len(all.drop_last());
    }
}

proof fn lemma_passes<A>(s: Seq<A>, p: spec_fn(A) -> bool, i: int)
    requires
        0 <= i < s.len(),
        p(s[i]),
    ensures
        s.filter(p).contains(s[i]),
    decreases s.len(),
{
    reveal(Seq::filter);
    let fewer = s.drop_last().filter(p);
    if i < s.len() - 1 {
        assert(s.drop_last()[i] == s[i]);
        lemma_passes(s.drop_last(), p, i);
        let k = choose|k: int| 0 <= k < fewer.len() && fewer[k] == s[i];
        assert(s.filter(p)[k] == s[i]);
    } else {
        assert(s.filter(p) == fewer.push(s[i]));
        assert(s.filter(p)[fewer.len() as int] == s[i]);
    }
}

/// While the boards are not known, none is offered.
pub proof fn law_unknown_boards_are_not_offered(s: AppView, target: int)
    requires
        !(s.all_boards matches Some(Ok(_))),
    ensures
        s.offers(Pick::Board, target).len() == 0,
        s.offers(Pick::AddBoard, target).len() == 0,
{
}

// -- sketches --

/// The sketch says that it is made for boards of this kind.
pub open spec fn suits(s: AppView, rel: Seq<char>, fqbn: Seq<char>) -> bool {
    s.sketch_fqbn.contains_key(rel) && s.sketch_fqbn[rel] == fqbn
}

/// Every sketch is offered, those made for the board before the others, and only
/// those are said to be.
pub proof fn law_sketches_on_offer(s: AppView, i: int, k: int)
    requires
        0 <= i < s.boards.len(),
        0 <= k < s.sketches.len(),
    ensures
        ({
            let o = s.offers(Pick::Sketch, i);
            let fqbn = s.boards[i].fqbn;
            let rel = s.sketches[k];
            &&& o.len() == s.sketches.len()
            &&& suits(s, rel, fqbn) ==> o.contains((rel, "made for this board"@))
            &&& !suits(s, rel, fqbn) ==> o.contains((rel, Seq::<char>::empty()))
            &&& forall|a: int|
                0 <= a < o.len() ==> s.sketches.contains((#[trigger] o[a]).0) && o[a].1 == (
                if suits(s, o[a].0, fqbn) {
                    "made for this board"@
                } else {
                    Seq::<char>::empty()
                })
            &&& forall|a: int, b: int|
                0 <= a < b < o.len() && suits(s, #[trigger] o[b].0, fqbn) ==> suits(
                    s,
                    (#[trigger] o[a]).0,
                    fqbn,
                )
        }),
{
    reveal_strlit("made for this board");
    let fqbn = s.boards[i].fqbn;
    let f = |r: Seq<char>| sketch_offer(s.sketch_fqbn, Some(fqbn), r);
    let v = s.sketches.map_values(f);
    let first = v.filter(noted());
    let rest = v.filter(plain());
    let o = s.offers(Pick::Sketch, i);
    assert(o == first + rest);
    lemma_all_pass(v, noted());
    lemma_all_pass(v, plain());
    lemma_noted_len(v);
    assert(v[k] == f(s.sketches[k]));
    if suits(s, s.sketches[k], fqbn) {
        assert(noted()(v[k]));
        lemma_passes(v, noted(), k);
        let m = choose|m: int| 0 <= m < first.len() && first[m] == v[k];
        assert(o[m] == v[k]);
    } else {
        assert(plain()(v[k]));
        lemma_passes(v, plain(), k);
        let m = choose|m: int| 0 <= m < rest.len() && rest[m] == v[k];
        assert(o[first.len() + m] == v[k]);
    }
    lemma_from(v, noted());
    lemma_from(v, plain());
    assert forall|a: int| 0 <= a < o.len() implies s.sketches.contains((#[trigger] o[a]).0) && o[a].1
        == (if suits(s, o[a].0, fqbn) {
        "made for this board"@
    } else {
        Seq::<char>::empty()
    }) by {
        if a < first.len() {
            assert(o[a] == first[a]);
        } else {
            assert(o[a] == rest[a - first.len()]);
        }
        assert(v.contains(o[a]));
        let m = choose|m: int| 0 <= m < v.len() && v[m] == o[a];
        assert(v[m] == f(s.sketches[m]));
    }
    assert forall|a: int, b: int|
        0 <= a < b < o.len() && suits(s, #[trigger] o[b].0, fqbn) implies suits(
        s,
        (#[trigger] o[a]).0,
        fqbn,
    ) by {
        assert(o[b].1 == "made for this board"@);
        if b >= first.len() {
            assert(o[b] == rest[b - first.len()]);
            assert(plain()(rest[b - first.len()]));
        }
        assert(o[a] == first[a]);
        assert(noted()(first[a]));
    }
}

proof fn lemma_noted_len(v: Seq<(Seq<char>, Seq<char>)>)
    ensures
        v.filter(noted()).len() + v.filter(plain()).len() == v.len(),
    decreases v.len(),
{
    reveal(Seq::filter);
    if v.len() > 0 {
        lemma_noted_len(v.drop_last());
    }
}

proof fn lemma_from<A>(s: Seq<A>, p: spec_fn(A) -> bool)
    ensures
        forall|k: int| 0 <= k < s.filter(p).len() ==> s.contains(#[trigger] s.filter(p)[k]),
    decreases s.len(),
{
    reveal(Seq::filter);
    if s.len() > 0 {
        let fewer = s.drop_last();
        lemma_from(fewer, p);
        assert forall|k: int| 0 <= k < s.filter(p).len() implies s.contains(
            #[trigger] s.filter(p)[k],
        ) by {
            if k < fewer.filter(p).len() {
                assert(s.filter(p)[k] == fewer.filter(p)[k]);
                let m = choose|m: int| 0 <= m < fewer.len() && fewer[m] == fewer.filter(p)[k];
                assert(s[m] == fewer[m]);
            } else {
                assert(s.filter(p)[k] == s[s.len() - 1]);
            }
        }
    }
}

/// Sketches that suit the board alike are offered in their order.
pub proof fn law_sketches_keep_their_order(s: AppView, i: int)
    requires
        0 <= i < s.boards.len(),
    ensures
        ({
            let o = s.offers(Pick::Sketch, i);
            let fqbn = s.boards[i].fqbn;
            o.map_values(|x: (Seq<char>, Seq<char>)| x.0) == s.sketches.filter(
                |r: Seq<char>| suits(s, r, fqbn),
            ) + s.sketches.filter(|r: Seq<char>| !suits(s, r, fqbn))
        }),
{
    reveal_strlit("made for this board");
    let fqbn = s.boards[i].fqbn;
    let f = |r: Seq<char>| sketch_offer(s.sketch_fqbn, Some(fqbn), r);
    let v = s.sketches.map_values(f);
    let yes = |r: Seq<char>| suits(s, r, fqbn);
    let no = |r: Seq<char>| !suits(s, r, fqbn);
    let label = |x: (Seq<char>, Seq<char>)| x.0;
    assert forall|r: Seq<char>| noted()(#[trigger] f(r)) == yes(r) by {}
    assert forall|r: Seq<char>| plain()(#[trigger] f(r)) == no(r) by {}
    lemma_labels(s.sketches, f, noted(), yes);
    lemma_labels(s.sketches, f, plain(), no);
    let o = s.offers(Pick::Sketch, i);
    assert(o == v.filter(noted()) + v.filter(plain()));
    assert(o.map_values(label) =~= v.filter(noted()).map_values(label) + v.filter(
        plain(),
    ).map_values(label));
}

proof fn lemma_labels(
    s: Seq<Seq<char>>,
    f: spec_fn(Seq<char>) -> (Seq<char>, Seq<char>),
    p: spec_fn((Seq<char>, Seq<char>)) -> bool,
    q: spec_fn(Seq<char>) -> bool,
)
    requires
        forall|r: Seq<char>| p(#[trigger] f(r)) == q(r),
        forall|r: Seq<char>| (#[trigger] f(r)).0 == r,
    ensures
        s.map_values(f).filter(p).map_values(|x: (Seq<char>, Seq<char>)| x.0) == s.filter(q),
    decreases s.len(),
{
    reveal(Seq::filter);
    let v = s.map_values(f);
    let label = |x: (Seq<char>, Seq<char>)| x.0;
    if s.len() > 0 {
        lemma_labels(s.drop_last(), f, p, q);
        assert(v.drop_last() =~= s.drop_last().map_values(f));
        let x = f(s.last());
        let fewer = v.drop_last().filter(p);
        assert(v.last() == x);
        if q(s.last()) {
            assert(fewer.push(x).map_values(label) =~= fewer.map_values(label).push(s.last()));
        }
    } else {
        assert(v.filter(p).map_values(label) =~= s.filter(q));
    }
}

// -- ports --

/// Every port is offered, by its address and the names of the boards that it
/// reports.
pub proof fn law_ports_on_offer(s: AppView, target: int, j: int)
    requires
        0 <= j < s.ports.len(),
    ensures
        s.offers(Pick::Port, target).len() == s.ports.len(),
        s.offers(Pick::Port, target)[j].0 == s.ports[j].port.address,
        s.offers(Pick::Port, target)[j].1 == text::joined(
            s.ports[j].matching_boards.map_values(|b: BoardView| b.name),
            ", "@,
        ),
{
}

/// A board is at the port that it was found at, and at none where it was not found.
pub proof fn law_port_of_a_board(s: AppView, i: int, j: int)
    requires
        0 <= i < s.boards.len(),
    ensures
        resolved(s.boards, s.ports)[i] == Some(j) ==> s.port_of(i) == Some(s.ports[j]),
        resolved(s.boards, s.ports)[i] is None ==> s.port_of(i) is None,
{
}

// -- what was typed --

/// What was typed is in one of the two texts, capitals aside.
pub open spec fn found_in(x: (Seq<char>, Seq<char>), query: Seq<char>) -> bool {
    ||| text::holds(text::lowercased(x.0), text::lowercased(query))
    ||| text::holds(text::lowercased(x.1), text::lowercased(query))
}

/// Of what a list offers, exactly that is shown in whose label or detail what was
/// typed is, capitals aside, and in the same order.
pub proof fn law_typing_narrows_a_list(s: AppView, p: PickerView, x: (Seq<char>, Seq<char>))
    requires
        s.picker == Some(p),
    ensures
        s.picks().contains(x) <==> s.offers(p.kind, p.target).contains(x) && found_in(x, p.query),
        s.picks() == s.offers(p.kind, p.target).filter(
            |y: (Seq<char>, Seq<char>)| found_in(y, p.query),
        ),
{
    let all = s.offers(p.kind, p.target);
    let q = |y: (Seq<char>, Seq<char>)| found_in(y, p.query);
    assert(q =~= matching(p.query));
    lemma_all_pass(all, q);
    lemma_from(all, q);
    let shown = s.picks();
    if shown.contains(x) {
        let k = choose|k: int| 0 <= k < shown.len() && shown[k] == x;
        assert(q(all.filter(q)[k]));
    }
    if all.contains(x) && found_in(x, p.query) {
        let k = choose|k: int| 0 <= k < all.len() && all[k] == x;
        assert(q(all[k]));
        lemma_passes(all, q, k);
    }
}

/// With no list open, nothing is offered.
pub proof fn law_no_list_no_offers(s: AppView)
    requires
        s.picker is None,
    ensures
        s.picks().len() == 0,
{
}

// -- no boards --

/// The port is of the kind that boards are plugged in at, or reports a board of a
/// known kind.
pub open spec fn looks_like_a_board(d: DetectedView) -> bool {
    ||| text::holds(d.port.protocol_label, "USB"@)
    ||| exists|k: int|
        0 <= k < d.matching_boards.len() && (#[trigger] d.matching_boards[k]).fqbn.len() > 0
}

/// Where the project has no boards, the ports that look like a board are counted:
/// `found` are the places of all of them.
pub proof fn law_boards_plugged_in_are_counted(s: AppView, found: Seq<int>)
    requires
        forall|a: int, b: int| 0 <= a < b < found.len() ==> found[a] < found[b],
        forall|j: int|
            #[trigger] found.contains(j) <==> 0 <= j < s.ports.len() && looks_like_a_board(
                s.ports[j],
            ),
    ensures
        found.len() == 0 ==> s.no_boards()
            == "no boards in project — plug one in, or press a to add one"@,
        found.len() == 1 ==> s.no_boards() == "detected 1 board — press 3, then enter to add it"@,
        found.len() > 1 ==> s.no_boards() == "detected "@ + text::decimal(found.len())
            + " boards — press 3, then enter to add them"@,
{
    let p = boardlike_at(s.ports);
    let v = places(s.ports.len(), p);
    lemma_places(s.ports.len(), p);
    assert forall|j: int| #[trigger] v.contains(j) <==> found.contains(j) by {
        if v.contains(j) {
            let k = choose|k: int| 0 <= k < v.len() && v[k] == j;
            assert(p(v[k]));
        }
        if found.contains(j) {
            assert(boardlike(s.ports[j]));
            assert(p(j));
        }
    }
    lemma_same_ascending(v, found);
}

/// The selected row of the project is a port exactly where the project is shown
/// and it lies behind the boards.
pub proof fn law_rows_behind_the_boards_are_ports(s: AppView)
    ensures
        s.on_port_row() <==> s.tab == Tab::Project && s.sel >= s.boards.len(),
        s.wants_defaults() <==> s.root_is_sketch && s.boards.len() == 0,
        0 <= s.active < s.boards.len() ==> s.target() == Some(s.boards[s.active]),
        s.active >= s.boards.len() ==> s.target() is None,
{
}

/// A connection belongs to the first pane that it was opened for.
pub proof fn law_pane_of_a_connection(s: AppView, id: int, i: int)
    ensures
        0 <= i < s.panes.len() && s.panes[i].link is Some && s.panes[i].link->0.id == id && (forall|
            k: int,
        |
            0 <= k < i && (#[trigger] s.panes[k]).link is Some ==> s.panes[k].link->0.id != id)
            ==> s.pane_of(id) == Some(i),
        (forall|k: int|
            0 <= k < s.panes.len() && (#[trigger] s.panes[k]).link is Some
                ==> s.panes[k].link->0.id != id) ==> s.pane_of(id) is None,
{
    let p = s.has_id(id);
    let n = s.panes.len() as int;
    lemma_seek(0, n, p);
    let f = seek(0, n, p);
    if f < n {
        assert(p(f));
        assert(s.panes[f].link is Some);
    }
    if 0 <= i < n && s.panes[i].link is Some && s.panes[i].link->0.id == id {
        assert(p(i));
    }
}

} // verus!
