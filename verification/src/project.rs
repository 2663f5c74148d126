//! The boards of a project and the ports they are found at.
use vstd::prelude::*;

use crate::cli::{Detected, DetectedView};
use crate::lists::{lemma_seek, place, seek};
use crate::text::{law_blank, law_trimmed, same, trim, trimmed, white};

verus! {

// -- types --

#[derive(Debug, PartialEq)]
pub struct Target {
    pub name: String,
    pub fqbn: String,
    pub port: Option<String>,
    pub sketch: Option<String>,
}

pub struct TargetView {
    pub name: Seq<char>,
    pub fqbn: Seq<char>,
    pub port: Option<Seq<char>>,
    pub sketch: Option<Seq<char>>,
}

impl DeepView for Target {
    type V = TargetView;

    open spec fn deep_view(&self) -> TargetView {
        TargetView {
            name: self.name@,
            fqbn: self.fqbn@,
            port: self.port.deep_view(),
            sketch: self.sketch.deep_view(),
        }
    }
}

impl Clone for Target {
    fn clone(&self) -> (r: Target)
        ensures
            r.deep_view() == self.deep_view(),
    {
        Target {
            name: self.name.clone(),
            fqbn: self.fqbn.clone(),
            port: self.port.clone(),
            sketch: self.sketch.clone(),
        }
    }
}

// -- fluxus.yaml --

/// The file that holds the boards of a project.
pub const FILE: &'static str = "fluxus.yaml";

/// What is to be parsed of the project file. A file that is not there, or is
/// blank, holds no boards.
pub open spec fn to_parse(text: Option<Seq<char>>) -> Option<Seq<char>> {
    match text {
        Some(s) => if trimmed(s).len() > 0 {
            Some(s)
        } else {
            None
        },
        None => None,
    }
}

pub fn load(text: Option<String>) -> (r: Option<String>)
    ensures
        r.deep_view() == to_parse(text.deep_view()),
{
    match text {
        Some(s) => if trim(s.as_str()).as_str().is_empty() {
            None
        } else {
            Some(s)
        },
        None => None,
    }
}

// -- ports --

/// The board remembers port `j` by its address.
pub open spec fn by_address(t: TargetView, ports: Seq<DetectedView>) -> spec_fn(int) -> bool {
    |j: int| t.port == Some(ports[j].port.address)
}

/// The port reports a board of that kind.
pub open spec fn reports(d: DetectedView, fqbn: Seq<char>) -> bool {
    exists|k: int| 0 <= k < d.matching_boards.len() && #[trigger] d.matching_boards[k].fqbn == fqbn
}

/// The port at the address that board `i` remembers.
pub open spec fn recalled(
    boards: Seq<TargetView>,
    ports: Seq<DetectedView>,
    i: int,
) -> Option<int> {
    place(ports.len() as int, by_address(boards[i], ports))
}

/// The port that board `i` gets for its remembered address: no earlier board
/// remembers the same one.
pub open spec fn remembered(
    boards: Seq<TargetView>,
    ports: Seq<DetectedView>,
    i: int,
) -> Option<int> {
    if exists|k: int|
        0 <= k < i && #[trigger] recalled(boards, ports, k) == recalled(boards, ports, i) {
        None
    } else {
        recalled(boards, ports, i)
    }
}

/// Some board gets port `j` for its remembered address.
pub open spec fn held(boards: Seq<TargetView>, ports: Seq<DetectedView>, j: int) -> bool {
    exists|k: int| 0 <= k < boards.len() && #[trigger] remembered(boards, ports, k) == Some(j)
}

/// Port `j` is left over, with `so_far` given out, and reports the board's kind.
pub open spec fn left_for(
    boards: Seq<TargetView>,
    ports: Seq<DetectedView>,
    so_far: Seq<Option<int>>,
    fqbn: Seq<char>,
) -> spec_fn(int) -> bool {
    |j: int| !held(boards, ports, j) && !so_far.contains(Some(j)) && reports(ports[j], fqbn)
}

/// The ports of the first `n` boards: the remembered one, or else the first one
/// left over that reports the board's kind.
pub open spec fn resolved_upto(
    boards: Seq<TargetView>,
    ports: Seq<DetectedView>,
    n: nat,
) -> Seq<Option<int>>
    decreases n,
{
    if n == 0 {
        Seq::empty()
    } else {
        let so_far = resolved_upto(boards, ports, (n - 1) as nat);
        let own = remembered(boards, ports, n - 1);
        so_far.push(
            if own is Some {
                own
            } else {
                place(ports.len() as int, left_for(boards, ports, so_far, boards[n - 1].fqbn))
            },
        )
    }
}

/// The port of each board.
pub open spec fn resolved(boards: Seq<TargetView>, ports: Seq<DetectedView>) -> Seq<Option<int>> {
    resolved_upto(boards, ports, boards.len())
}

pub open spec fn spot(x: Option<usize>) -> Option<int> {
    match x {
        Some(j) => Some(j as int),
        None => None,
    }
}

/// Places in a list of ports, one for each board.
pub open spec fn spots(v: Seq<Option<usize>>) -> Seq<Option<int>> {
    v.map_values(|x: Option<usize>| spot(x))
}

fn recall(t: &Target, ports: &[Detected]) -> (r: Option<usize>)
    ensures
        spot(r) == place(ports.deep_view().len() as int, by_address(t.deep_view(), ports.deep_view())),
{
    let ghost ds = ports.deep_view();
    let ghost p = by_address(t.deep_view(), ds);
    let address = match &t.port {
        Some(a) => a,
        None => {
            proof {
                lemma_seek(0, ds.len() as int, p);
            }
            return None;
        },
    };
    for j in 0..ports.len()
        invariant
            ds == ports.deep_view(),
            t.port.deep_view() == Some(address@),
            p == by_address(t.deep_view(), ds),
            seek(0, ds.len() as int, p) == seek(j as int, ds.len() as int, p),
    {
        assert(ds[j as int] == ports@[j as int].deep_view());
        if same(ports[j].port.address.as_str(), address.as_str()) {
            return Some(j);
        }
    }
    None
}

fn reports_kind(d: &Detected, fqbn: &str) -> (r: bool)
    ensures
        r == reports(d.deep_view(), fqbn@),
{
    let ghost bs = d.deep_view().matching_boards;
    for k in 0..d.matching_boards.len()
        invariant
            bs == d.deep_view().matching_boards,
            forall|i: int| 0 <= i < k ==> #[trigger] bs[i].fqbn != fqbn@,
    {
        assert(bs[k as int] == d.matching_boards@[k as int].deep_view());
        if same(d.matching_boards[k].fqbn.as_str(), fqbn) {
            assert(bs[k as int].fqbn == fqbn@);
            return true;
        }
    }
    false
}

pub proof fn lemma_resolved_len(boards: Seq<TargetView>, ports: Seq<DetectedView>, n: nat)
    ensures
        resolved_upto(boards, ports, n).len() == n,
    decreases n,
{
    if n > 0 {
        lemma_resolved_len(boards, ports, (n - 1) as nat);
    }
}

/// The port of each board: the one it remembers where that is there, or else
/// one that reports the board's kind. No port is given out twice.
pub fn resolve(boards: &[Target], ports: &[Detected]) -> (r: Vec<Option<usize>>)
    ensures
        spots(r@) == resolved(boards.deep_view(), ports.deep_view()),
{
    let ghost bs = boards.deep_view();
    let ghost ds = ports.deep_view();
    let mut taken: Vec<bool> = Vec::new();
    for j in 0..ports.len()
        invariant
            taken.len() == j,
            forall|k: int| 0 <= k < j ==> !taken@[k],
    {
        taken.push(false);
    }
    let mut out: Vec<Option<usize>> = Vec::new();
    for i in 0..boards.len()
        invariant
            bs == boards.deep_view(),
            ds == ports.deep_view(),
            taken.len() == ports.len(),
            out.len() == i,
            forall|k: int| 0 <= k < i ==> spot(#[trigger] out@[k]) == remembered(bs, ds, k),
            forall|j: int|
                0 <= j < taken.len() ==> (#[trigger] taken@[j] <==> exists|k: int|
                    0 <= k < i && #[trigger] recalled(bs, ds, k) == Some(j)),
    {
        assert(bs[i as int] == boards@[i as int].deep_view());
        let hit = recall(&boards[i], ports);
        proof {
            lemma_seek(0, ds.len() as int, by_address(bs[i as int], ds));
        }
        let ghost was = taken@;
        let mut own: Option<usize> = None;
        if let Some(j) = hit {
            if !taken[j] {
                taken.set(j, true);
                own = Some(j);
            }
        }
        assert(spot(own) == remembered(bs, ds, i as int));
        assert forall|j: int| 0 <= j < taken.len() implies (#[trigger] taken@[j] <==> exists|k: int|
            0 <= k < i + 1 && #[trigger] recalled(bs, ds, k) == Some(j)) by {
            assert(was[j] <==> exists|k: int|
                0 <= k < i && #[trigger] recalled(bs, ds, k) == Some(j));
            if recalled(bs, ds, i as int) == Some(j) {
                assert(taken@[j]);
            }
        }
        out.push(own);
    }
    proof {
        assert forall|j: int| 0 <= j < taken.len() implies (#[trigger] taken@[j] <==> held(bs, ds, j)) by {
            if taken@[j] {
                let ps = |k: int| recalled(bs, ds, k) == Some(j);
                let k0 = seek(0, bs.len() as int, ps);
                lemma_seek(0, bs.len() as int, ps);
                let k1 = choose|k: int| 0 <= k < bs.len() && #[trigger] recalled(bs, ds, k) == Some(j);
                assert(ps(k1));
                assert(ps(k0));
                assert forall|k: int| 0 <= k < k0 implies #[trigger] recalled(bs, ds, k)
                    != recalled(bs, ds, k0) by {
                    assert(!ps(k));
                }
                assert(remembered(bs, ds, k0) == Some(j));
            }
            if held(bs, ds, j) {
                let k = choose|k: int|
                    0 <= k < bs.len() && #[trigger] remembered(bs, ds, k) == Some(j);
                assert(recalled(bs, ds, k) == Some(j));
            }
        }
        assert forall|k: int| 0 <= k < bs.len() implies spot(#[trigger] out@[k]) == remembered(
            bs,
            ds,
            k,
        ) by {}
    }
    for i in 0..boards.len()
        invariant
            bs == boards.deep_view(),
            ds == ports.deep_view(),
            taken.len() == ports.len(),
            out.len() == boards.len(),
            forall|k: int|
                0 <= k < i ==> spot(#[trigger] out@[k]) == resolved_upto(bs, ds, i as nat)[k],
            forall|k: int| i <= k < out.len() ==> spot(#[trigger] out@[k]) == remembered(bs, ds, k),
            forall|j: int|
                0 <= j < taken.len() ==> (#[trigger] taken@[j] <==> held(bs, ds, j)
                    || resolved_upto(bs, ds, i as nat).contains(Some(j))),
    {
        let ghost so_far = resolved_upto(bs, ds, i as nat);
        let ghost next = resolved_upto(bs, ds, (i + 1) as nat);
        proof {
            lemma_resolved_len(bs, ds, i as nat);
        }
        let ghost p = left_for(bs, ds, so_far, bs[i as int].fqbn);
        assert(bs[i as int] == boards@[i as int].deep_view());
        let ghost was = taken@;
        let ghost had = out@;
        if out[i].is_none() {
            let mut j: usize = 0;
            while j < ports.len() && (taken[j] || !reports_kind(&ports[j], boards[i].fqbn.as_str()))
                invariant
                    i < boards.len(),
                    bs == boards.deep_view(),
                    ds == ports.deep_view(),
                    taken.len() == ports.len(),
                    p == left_for(bs, ds, so_far, bs[i as int].fqbn),
                    forall|k: int|
                        0 <= k < taken.len() ==> (#[trigger] taken@[k] <==> held(bs, ds, k)
                            || so_far.contains(Some(k))),
                    j <= ports.len(),
                    seek(0, ds.len() as int, p) == seek(j as int, ds.len() as int, p),
                decreases ports.len() - j,
            {
                assert(ds[j as int] == ports@[j as int].deep_view());
                j = j + 1;
            }
            if j < ports.len() {
                assert(ds[j as int] == ports@[j as int].deep_view());
                assert(p(j as int));
                taken.set(j, true);
                out.set(i, Some(j));
            }
        } else {
            assert(held(bs, ds, out@[i as int]->0 as int)) by {
                assert(remembered(bs, ds, i as int) == spot(out@[i as int]));
            }
        }
        assert(next == so_far.push(spot(out@[i as int])));
        assert forall|k: int| 0 <= k < i + 1 implies spot(#[trigger] out@[k]) == next[k] by {
            if k < i {
                assert(had[k] == out@[k]);
            }
        }
        assert forall|j: int| 0 <= j < taken.len() implies (#[trigger] taken@[j] <==> held(
            bs,
            ds,
            j,
        ) || next.contains(Some(j))) by {
            assert(was[j] <==> held(bs, ds, j) || so_far.contains(Some(j)));
            if so_far.contains(Some(j)) {
                let k = choose|k: int| 0 <= k < so_far.len() && so_far[k] == Some(j);
                assert(next[k] == Some(j));
            }
            if spot(out@[i as int]) == Some(j) {
                assert(next[i as int] == Some(j));
            }
            if next.contains(Some(j)) {
                let k = choose|k: int| 0 <= k < next.len() && next[k] == Some(j);
                if k < i {
                    assert(so_far[k] == Some(j));
                }
            }
        }
    }
    proof {
        lemma_resolved_len(bs, ds, bs.len());
        assert(spots(out@) =~= resolved(bs, ds));
    }
    out
}

// -- what holds of the ports that boards get --

proof fn lemma_resolved_at(
    boards: Seq<TargetView>,
    ports: Seq<DetectedView>,
    n: nat,
    i: int,
)
    requires
        0 <= i < n,
    ensures
        resolved_upto(boards, ports, n)[i] == resolved_upto(boards, ports, (i + 1) as nat)[i],
        resolved_upto(boards, ports, n).len() == n,
    decreases n,
{
    lemma_resolved_len(boards, ports, n);
    lemma_resolved_len(boards, ports, (n - 1) as nat);
    if i < n - 1 {
        lemma_resolved_at(boards, ports, (n - 1) as nat, i);
    }
}

/// Where board `i` has a port, it is one of the ports, and the board remembers
/// its address or one of the boards that the port reports has the board's kind,
/// character for character.
pub proof fn law_port_fits(boards: Seq<TargetView>, ports: Seq<DetectedView>, i: int)
    requires
        0 <= i < boards.len(),
        resolved(boards, ports)[i] is Some,
    ensures
        ({
            let j = resolved(boards, ports)[i]->0;
            &&& 0 <= j < ports.len()
            &&& boards[i].port == Some(ports[j].port.address) || exists|k: int|
                0 <= k < ports[j].matching_boards.len()
                    && #[trigger] ports[j].matching_boards[k].fqbn == boards[i].fqbn
        }),
{
    lemma_resolved_at(boards, ports, boards.len(), i);
    lemma_resolved_len(boards, ports, i as nat);
    let so_far = resolved_upto(boards, ports, i as nat);
    lemma_seek(0, ports.len() as int, by_address(boards[i], ports));
    lemma_seek(0, ports.len() as int, left_for(boards, ports, so_far, boards[i].fqbn));
}

/// No port is given to two boards.
pub proof fn law_one_board_per_port(
    boards: Seq<TargetView>,
    ports: Seq<DetectedView>,
    a: int,
    b: int,
)
    requires
        0 <= a < b < boards.len(),
        resolved(boards, ports)[b] is Some,
    ensures
        resolved(boards, ports)[a] != resolved(boards, ports)[b],
{
    lemma_resolved_at(boards, ports, boards.len(), a);
    lemma_resolved_at(boards, ports, boards.len(), b);
    lemma_resolved_len(boards, ports, a as nat);
    lemma_resolved_len(boards, ports, b as nat);
    lemma_resolved_at(boards, ports, b as nat, a);
    let before_a = resolved_upto(boards, ports, a as nat);
    let before_b = resolved_upto(boards, ports, b as nat);
    lemma_seek(0, ports.len() as int, left_for(boards, ports, before_a, boards[a].fqbn));
    lemma_seek(0, ports.len() as int, left_for(boards, ports, before_b, boards[b].fqbn));
    let j = resolved(boards, ports)[b]->0;
    assert(before_b[a] == resolved(boards, ports)[a]);
    if resolved(boards, ports)[a] == Some(j) {
        if remembered(boards, ports, b) is Some {
            assert(remembered(boards, ports, b) == Some(j));
            assert(held(boards, ports, j));
            assert(remembered(boards, ports, a) == Some(j));
            assert(recalled(boards, ports, a) == recalled(boards, ports, b));
        } else {
            assert(before_b.contains(Some(j)));
        }
    }
}

/// A port whose address some board remembers goes to a board that remembers it,
/// whatever kinds the ports report.
pub proof fn law_remembered_first(
    boards: Seq<TargetView>,
    ports: Seq<DetectedView>,
    i: int,
    j: int,
)
    requires
        0 <= i < boards.len(),
        recalled(boards, ports, i) == Some(j),
    ensures
        exists|k: int|
            0 <= k <= i && boards[k].port == boards[i].port && #[trigger] resolved(
                boards,
                ports,
            )[k] == Some(j),
{
    let same_port = |k: int| recalled(boards, ports, k) == Some(j);
    lemma_seek(0, boards.len() as int, same_port);
    let k0 = seek(0, boards.len() as int, same_port);
    assert(same_port(i));
    assert(same_port(k0));
    assert forall|k: int| 0 <= k < k0 implies #[trigger] recalled(boards, ports, k) != recalled(
        boards,
        ports,
        k0,
    ) by {
        assert(!same_port(k));
    }
    assert(remembered(boards, ports, k0) == Some(j));
    lemma_resolved_at(boards, ports, boards.len(), k0);
    lemma_resolved_len(boards, ports, k0 as nat);
    lemma_seek(0, ports.len() as int, by_address(boards[i], ports));
    lemma_seek(0, ports.len() as int, by_address(boards[k0], ports));
    assert(resolved(boards, ports)[k0] == Some(j));
}

/// A board stays without a port only where every port that reports its kind is
/// given to an earlier board, or to one that remembers it.
pub proof fn law_none_left(boards: Seq<TargetView>, ports: Seq<DetectedView>, i: int, j: int)
    requires
        0 <= i < boards.len(),
        resolved(boards, ports)[i] is None,
        0 <= j < ports.len(),
        exists|k: int|
            0 <= k < ports[j].matching_boards.len() && #[trigger] ports[j].matching_boards[k].fqbn
                == boards[i].fqbn,
    ensures
        exists|k: int|
            0 <= k < boards.len() && #[trigger] resolved(boards, ports)[k] == Some(j) && (k < i
                || boards[k].port == Some(ports[j].port.address)),
        resolved(boards, ports).contains(Some(j)),
{
    lemma_resolved_len(boards, ports, boards.len());
    lemma_resolved_at(boards, ports, boards.len(), i);
    lemma_resolved_len(boards, ports, i as nat);
    let so_far = resolved_upto(boards, ports, i as nat);
    let p = left_for(boards, ports, so_far, boards[i].fqbn);
    lemma_seek(0, ports.len() as int, p);
    assert(!p(j));
    if held(boards, ports, j) {
        let k = choose|k: int|
            0 <= k < boards.len() && #[trigger] remembered(boards, ports, k) == Some(j);
        lemma_resolved_at(boards, ports, boards.len(), k);
        lemma_resolved_len(boards, ports, k as nat);
        lemma_seek(0, ports.len() as int, by_address(boards[k], ports));
        assert(by_address(boards[k], ports)(j));
        assert(resolved(boards, ports)[k] == Some(j));
    } else {
        let k = choose|k: int| 0 <= k < so_far.len() && so_far[k] == Some(j);
        lemma_resolved_at(boards, ports, boards.len(), k);
        lemma_resolved_at(boards, ports, i as nat, k);
        assert(resolved(boards, ports)[k] == Some(j));
    }
}

/// A board that is added with the address of a port that no board has is found
/// at that port.
pub proof fn law_a_new_board_gets_its_port(
    boards: Seq<TargetView>,
    ports: Seq<DetectedView>,
    t: TargetView,
    j: int,
)
    requires
        0 <= j < ports.len(),
        t.port == Some(ports[j].port.address),
        forall|k: int| 0 <= k < j ==> (#[trigger] ports[k]).port.address != ports[j].port.address,
        !resolved(boards, ports).contains(Some(j)),
    ensures
        resolved(boards.push(t), ports)[boards.len() as int] == Some(j),
{
    let all = boards.push(t);
    let n = boards.len() as int;
    let p = by_address(t, ports);
    lemma_seek(0, ports.len() as int, p);
    assert(p(j));
    let at = seek(0, ports.len() as int, p);
    assert(at <= j);
    assert(p(at));
    assert(recalled(all, ports, n) == Some(j));
    assert forall|k: int| 0 <= k < n implies #[trigger] recalled(all, ports, k) != Some(j) by {
        assert(recalled(all, ports, k) == recalled(boards, ports, k));
        if recalled(boards, ports, k) == Some(j) {
            law_remembered_first(boards, ports, k, j);
            let m = choose|m: int|
                0 <= m <= k && boards[m].port == boards[k].port && #[trigger] resolved(
                    boards,
                    ports,
                )[m] == Some(j);
            lemma_resolved_len(boards, ports, boards.len());
            assert(resolved(boards, ports).contains(Some(j)));
        }
    }
    assert(remembered(all, ports, n) == Some(j));
    lemma_resolved_at(all, ports, all.len(), n);
    lemma_resolved_len(all, ports, n as nat);
}

/// The first board that remembers an address gets the first port there.
pub proof fn law_the_first_to_remember_gets_the_port(
    boards: Seq<TargetView>,
    ports: Seq<DetectedView>,
    i: int,
    j: int,
)
    requires
        0 <= i < boards.len(),
        0 <= j < ports.len(),
        boards[i].port == Some(ports[j].port.address),
        forall|k: int| 0 <= k < j ==> (#[trigger] ports[k]).port.address != ports[j].port.address,
        forall|k: int| 0 <= k < i ==> (#[trigger] boards[k]).port != boards[i].port,
    ensures
        resolved(boards, ports)[i] == Some(j),
{
    let p = by_address(boards[i], ports);
    lemma_seek(0, ports.len() as int, p);
    assert(p(j));
    assert(p(seek(0, ports.len() as int, p)));
    assert(recalled(boards, ports, i) == Some(j));
    assert forall|k: int| 0 <= k < i implies #[trigger] recalled(boards, ports, k) != recalled(
        boards,
        ports,
        i,
    ) by {
        let q = by_address(boards[k], ports);
        lemma_seek(0, ports.len() as int, q);
        if recalled(boards, ports, k) == Some(j) {
            assert(q(j));
        }
    }
    assert(remembered(boards, ports, i) == Some(j));
    lemma_resolved_at(boards, ports, boards.len(), i);
    lemma_resolved_len(boards, ports, i as nat);
}

/// A board that gets a port by its kind gets the first one that is left: each
/// port before it that reports the kind is given to an earlier board, or to one
/// that remembers it.
pub proof fn law_the_first_port_left(
    boards: Seq<TargetView>,
    ports: Seq<DetectedView>,
    i: int,
    j: int,
    k: int,
)
    requires
        0 <= i < boards.len(),
        resolved(boards, ports)[i] == Some(j),
        boards[i].port != Some(ports[j].port.address),
        0 <= k < j,
        exists|m: int|
            0 <= m < ports[k].matching_boards.len() && #[trigger] ports[k].matching_boards[m].fqbn
                == boards[i].fqbn,
    ensures
        exists|m: int|
            0 <= m < boards.len() && #[trigger] resolved(boards, ports)[m] == Some(k) && (m < i
                || boards[m].port == Some(ports[k].port.address)),
{
    lemma_resolved_at(boards, ports, boards.len(), i);
    lemma_resolved_len(boards, ports, i as nat);
    lemma_resolved_len(boards, ports, boards.len());
    let so_far = resolved_upto(boards, ports, i as nat);
    let p = left_for(boards, ports, so_far, boards[i].fqbn);
    let own = by_address(boards[i], ports);
    lemma_seek(0, ports.len() as int, own);
    lemma_seek(0, ports.len() as int, p);
    assert(remembered(boards, ports, i) is None) by {
        if remembered(boards, ports, i) is Some {
            assert(own(j));
        }
    }
    assert(!p(k));
    if held(boards, ports, k) {
        let m = choose|m: int|
            0 <= m < boards.len() && #[trigger] remembered(boards, ports, m) == Some(k);
        lemma_resolved_at(boards, ports, boards.len(), m);
        lemma_resolved_len(boards, ports, m as nat);
        lemma_seek(0, ports.len() as int, by_address(boards[m], ports));
        assert(by_address(boards[m], ports)(k));
        assert(resolved(boards, ports)[m] == Some(k));
    } else {
        let m = choose|m: int| 0 <= m < so_far.len() && so_far[m] == Some(k);
        lemma_resolved_at(boards, ports, boards.len(), m);
        lemma_resolved_at(boards, ports, i as nat, m);
        assert(resolved(boards, ports)[m] == Some(k));
    }
}

/// Every board is told its port, or that it has none.
pub proof fn law_every_board_is_told(boards: Seq<TargetView>, ports: Seq<DetectedView>)
    ensures
        resolved(boards, ports).len() == boards.len(),
{
    lemma_resolved_len(boards, ports, boards.len());
}

/// A project file is parsed where it holds anything but blanks, and then as it is.
pub proof fn law_only_blank_files_hold_nothing(text: Seq<char>)
    ensures
        (exists|i: int| 0 <= i < text.len() && !white(#[trigger] text[i])) ==> to_parse(Some(text))
            == Some(text),
        (forall|i: int| 0 <= i < text.len() ==> white(#[trigger] text[i])) ==> to_parse(
            Some(text),
        ) is None,
        to_parse(None) is None,
{
    law_trimmed(text);
    if exists|i: int| 0 <= i < text.len() && !white(#[trigger] text[i]) {
        let i = choose|i: int| 0 <= i < text.len() && !white(#[trigger] text[i]);
        law_blank(text);
        if trimmed(text).len() == 0 {
            assert(white(text[i]));
        }
    } else {
        law_blank(text);
    }
}

} // verus!
