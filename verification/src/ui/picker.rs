//! The list to pick from, and the sketches as a tree.
use vstd::prelude::*;

use super::spans::{add_bold, add_span, span, strong, toned, Span, SpanView, Tone};
use crate::app::state::{App, AppView, Pick, Picker, PickerView};
use crate::lists::push_item;
use crate::text;

verus! {

// -- the tree --

/// The folders not shared with the row above, each with its depth, then the depth
/// of the file and the file itself.
pub type TreeRow = (Vec<(usize, String)>, usize, String);

/// The folders on the way to a sketch, and the file at its end.
pub open spec fn way(label: Seq<char>, root: Seq<char>) -> (Seq<Seq<char>>, Seq<char>) {
    let parts = if label == "."@ {
        Seq::empty()
    } else {
        text::split(label, '/')
    };
    if parts.len() == 0 {
        (parts, root + ".ino"@)
    } else if text::ends(parts.last(), ".ino"@) {
        (parts.drop_last(), parts.last())
    } else {
        (parts, parts.last() + ".ino"@)
    }
}

/// How many folders two ways have in common.
pub open spec fn shared(a: Seq<Seq<char>>, b: Seq<Seq<char>>) -> nat
    decreases a.len(),
{
    if a.len() == 0 || b.len() == 0 || a[0] != b[0] {
        0
    } else {
        1 + shared(a.drop_first(), b.drop_first())
    }
}

pub open spec fn tree_row(
    above: Seq<Seq<char>>,
    label: Seq<char>,
    root: Seq<char>,
) -> (Seq<(usize, Seq<char>)>, usize, Seq<char>) {
    let (dirs, file) = way(label, root);
    let from = shared(above, dirs);
    (
        Seq::new((dirs.len() - from) as nat, |k: int| ((from + k) as usize, dirs[from + k])),
        dirs.len() as usize,
        file,
    )
}

/// The folders on the way to the row above row `i`.
pub open spec fn above(labels: Seq<Seq<char>>, root: Seq<char>, i: int) -> Seq<Seq<char>> {
    if i > 0 {
        way(labels[i - 1], root).0
    } else {
        Seq::empty()
    }
}

pub open spec fn tree_rows(labels: Seq<Seq<char>>, root: Seq<char>) -> Seq<
    (Seq<(usize, Seq<char>)>, usize, Seq<char>),
> {
    Seq::new(labels.len(), |i: int| tree_row(above(labels, root, i), labels[i], root))
}

pub proof fn lemma_shared(a: Seq<Seq<char>>, b: Seq<Seq<char>>)
    ensures
        shared(a, b) <= a.len(),
        shared(a, b) <= b.len(),
        forall|k: int| 0 <= k < shared(a, b) ==> #[trigger] a[k] == b[k],
        shared(a, b) < a.len() && shared(a, b) < b.len() ==> a[shared(a, b) as int] != b[shared(
            a,
            b,
        ) as int],
    decreases a.len(),
{
    if a.len() > 0 && b.len() > 0 && a[0] == b[0] {
        lemma_shared(a.drop_first(), b.drop_first());
        assert forall|k: int| 0 <= k < shared(a, b) implies #[trigger] a[k] == b[k] by {
            if k > 0 {
                assert(a.drop_first()[k - 1] == b.drop_first()[k - 1]);
            }
        }
    }
}

/// The folders above a sketch and those that its own row adds make up the whole
/// way to it.
pub proof fn law_the_tree_loses_no_folder(labels: Seq<Seq<char>>, root: Seq<char>, i: int, d: int)
    requires
        0 <= i < labels.len(),
        0 <= d < way(labels[i], root).0.len(),
    ensures
        ({
            let dirs = way(labels[i], root).0;
            let up = above(labels, root, i);
            let row = tree_rows(labels, root)[i];
            let from = dirs.len() - row.0.len();
            if d < from {
                d < up.len() && up[d] == dirs[d]
            } else {
                row.0[d - from] == ((d as usize), dirs[d])
            }
        }),
{
    lemma_shared(above(labels, root, i), way(labels[i], root).0);
}

fn way_of(label: &str, root: &str) -> (r: (Vec<String>, String))
    ensures
        (r.0.deep_view(), r.1@) == way(label@, root@),
{
    if text::same(label, ".") {
        let none: Vec<String> = Vec::new();
        assert(none.deep_view() =~= Seq::<Seq<char>>::empty());
        return (none, text::cat2(root, ".ino"));
    }
    let mut parts = text::split_of(label, '/');
    proof {
        crate::app::pane::lemma_split_len(label@, '/');
    }
    let ghost all = parts.deep_view();
    let n: usize = parts.len();
    assert(all.last() == parts@[n - 1]@);
    if text::ends_with(parts[n - 1].as_str(), ".ino") {
        let file = parts[n - 1].clone();
        crate::lists::pop_item(&mut parts);
        (parts, file)
    } else {
        let file = text::cat2(parts[n - 1].as_str(), ".ino");
        (parts, file)
    }
}

fn shared_by(a: &Vec<String>, b: &Vec<String>) -> (r: usize)
    ensures
        r == shared(a.deep_view(), b.deep_view()),
        r <= b.len(),
{
    let ghost (x, y) = (a.deep_view(), b.deep_view());
    let mut i: usize = 0;
    assert(x.skip(0) =~= x && y.skip(0) =~= y);
    while i < a.len() && i < b.len() && text::same(a[i].as_str(), b[i].as_str())
        invariant
            i <= a.len(),
            i <= b.len(),
            x == a.deep_view(),
            y == b.deep_view(),
            shared(x, y) == i + shared(x.skip(i as int), y.skip(i as int)),
        decreases a.len() - i,
    {
        assert(x[i as int] == a@[i as int]@ && y[i as int] == b@[i as int]@);
        assert(x.skip(i as int).drop_first() =~= x.skip(i + 1));
        assert(y.skip(i as int).drop_first() =~= y.skip(i + 1));
        i = i + 1;
    }
    proof {
        if i < a.len() && i < b.len() {
            assert(x[i as int] == a@[i as int]@ && y[i as int] == b@[i as int]@);
        }
    }
    i
}

fn row_of(prev: &Vec<String>, dirs: &Vec<String>, file: String) -> (r: TreeRow)
    ensures
        r.deep_view() == ({
            let (a, b) = (prev.deep_view(), dirs.deep_view());
            let from = shared(a, b);
            (
                Seq::new((b.len() - from) as nat, |k: int| ((from + k) as usize, b[from + k])),
                b.len() as usize,
                file@,
            )
        }),
{
    let ghost b = dirs.deep_view();
    let from = shared_by(prev, dirs);
    let ghost want = Seq::new(
        (b.len() - from) as nat,
        |k: int| ((from + k) as usize, b[from + k]),
    );
    let mut new: Vec<(usize, String)> = Vec::new();
    assert(new.deep_view() =~= want.take(0));
    for d in from..dirs.len()
        invariant
            b == dirs.deep_view(),
            from <= dirs.len(),
            want == Seq::new((b.len() - from) as nat, |k: int| ((from + k) as usize, b[from + k])),
            new.deep_view() == want.take(d - from),
    {
        assert(b[d as int] == dirs@[d as int]@);
        push_item(&mut new, (d, dirs[d].clone()));
        assert(new.deep_view() =~= want.take(d + 1 - from));
    }
    assert(new.deep_view() =~= want);
    (new, dirs.len(), file)
}

pub fn tree(labels: &[String], root: &str) -> (r: Vec<TreeRow>)
    ensures
        r.deep_view() == tree_rows(labels.deep_view(), root@),
{
    let ghost ls = labels.deep_view();
    let ghost want = tree_rows(ls, root@);
    let mut rows: Vec<TreeRow> = Vec::new();
    let mut prev: Vec<String> = Vec::new();
    assert(prev.deep_view() =~= above(ls, root@, 0));
    for i in 0..labels.len()
        invariant
            ls == labels.deep_view(),
            want == tree_rows(ls, root@),
            prev.deep_view() == above(ls, root@, i as int),
            rows.deep_view() == want.take(i as int),
    {
        assert(ls[i as int] == labels@[i as int]@);
        let (dirs, file) = way_of(labels[i].as_str(), root);
        push_item(&mut rows, row_of(&prev, &dirs, file));
        assert(rows.deep_view() =~= want.take(i + 1));
        prev = dirs;
    }
    assert(rows.deep_view() =~= want);
    rows
}

// -- the list --

/// A list to pick from.
#[derive(Debug)]
pub struct PickList {
    pub title: Vec<Span>,
    /// What is said in place of the list where there is nothing to pick from.
    pub empty: Option<Span>,
    /// What can be picked, each over one or more lines.
    pub items: Vec<Vec<Vec<Span>>>,
    pub sel: usize,
    /// Only the last line of what is selected stands out.
    pub leaf: bool,
}

#[verifier::ext_equal]
pub struct PickListView {
    pub title: Seq<SpanView>,
    pub empty: Option<SpanView>,
    pub items: Seq<Seq<Seq<SpanView>>>,
    pub sel: int,
    pub leaf: bool,
}

impl DeepView for PickList {
    type V = PickListView;

    open spec fn deep_view(&self) -> PickListView {
        PickListView {
            title: self.title.deep_view(),
            empty: self.empty.deep_view(),
            items: self.items.deep_view(),
            sel: self.sel as int,
            leaf: self.leaf,
        }
    }
}

/// A folder of the tree.
pub open spec fn folder_line(d: nat, name: Seq<char>) -> Seq<SpanView> {
    seq![toned(" "@ + text::spaces(2 * d) + name + "/"@, Tone::Dim)]
}

/// A sketch in the tree: the folders that it adds, then the file.
pub open spec fn tree_item(
    row: (Seq<(usize, Seq<char>)>, usize, Seq<char>),
    detail: Seq<char>,
) -> Seq<Seq<SpanView>> {
    row.0.map_values(|d: (usize, Seq<char>)| folder_line(d.0 as nat, d.1)).push(
        seq![
            toned(text::spaces((1 + 2 * row.1) as nat), Tone::Plain),
            strong(row.2, Tone::Good),
            toned("  "@ + detail, Tone::Dim),
        ],
    )
}

pub open spec fn flat_item(pick: (Seq<char>, Seq<char>)) -> Seq<Seq<SpanView>> {
    seq![
        seq![
            toned(" "@ + text::padded(pick.0, 40), Tone::Plain),
            toned(pick.1, Tone::Dim),
        ],
    ]
}

pub open spec fn labels(picks: Seq<(Seq<char>, Seq<char>)>) -> Seq<Seq<char>> {
    picks.map_values(|p: (Seq<char>, Seq<char>)| p.0)
}

impl AppView {
    /// What is picked, and for which board.
    pub open spec fn pick_what(self, p: PickerView) -> Seq<char> {
        let who = if 0 <= p.target < self.boards.len() {
            " for "@ + self.boards[p.target].name
        } else {
            Seq::empty()
        };
        match p.kind {
            Pick::AddBoard => " add board"@,
            Pick::Board => " board"@ + who,
            Pick::Sketch => " sketch"@ + who,
            Pick::Port => " port"@ + who,
        }
    }

    pub open spec fn nothing_to_pick(self, kind: Pick) -> Option<SpanView> {
        match kind {
            Pick::AddBoard | Pick::Board => match self.all_boards {
                None => Some(toned("loading boards…"@, Tone::Dim)),
                Some(Err(e)) => Some(toned(e, Tone::Bad)),
                Some(Ok(all)) => if all.len() == 0 {
                    Some(
                        toned(
                            "no cores installed — try: arduino-cli core install arduino:avr"@,
                            Tone::Dim,
                        ),
                    )
                } else {
                    None
                },
            },
            Pick::Sketch => if self.sketches.len() == 0 {
                Some(toned("no .ino files under "@ + self.root, Tone::Dim))
            } else {
                None
            },
            Pick::Port => if self.ports.len() == 0 {
                Some(toned("no ports detected"@, Tone::Dim))
            } else {
                None
            },
        }
    }

    /// The name under which the root's own sketch is shown.
    pub open spec fn root_label(self) -> Seq<char> {
        match self.root_name {
            Some(n) => n,
            None => "sketch"@,
        }
    }

    pub open spec fn pick_items(self, kind: Pick) -> Seq<Seq<Seq<SpanView>>> {
        let picks = self.picks();
        if kind == Pick::Sketch {
            let rows = tree_rows(labels(picks), self.root_label());
            Seq::new(picks.len(), |i: int| tree_item(rows[i], picks[i].1))
        } else {
            picks.map_values(|p: (Seq<char>, Seq<char>)| flat_item(p))
        }
    }

    pub open spec fn pick_list(self, p: PickerView) -> PickListView {
        let empty = self.nothing_to_pick(p.kind);
        PickListView {
            title: seq![
                toned(self.pick_what(p), Tone::Dim),
                toned(": "@, Tone::Dim),
                toned(p.query, Tone::Plain),
                toned("▏"@, Tone::Accent),
            ],
            empty,
            items: if empty is Some {
                Seq::empty()
            } else {
                self.pick_items(p.kind)
            },
            sel: p.sel,
            leaf: p.kind == Pick::Sketch,
        }
    }
}

fn what_of(app: &App, p: &Picker) -> (r: String)
    ensures
        r@ == app@.pick_what(p.deep_view()),
{
    let who = if p.target < app.boards.len() {
        assert(app@.boards[p.target as int] == app.boards@[p.target as int].deep_view());
        text::cat2(" for ", app.boards[p.target].name.as_str())
    } else {
        String::new()
    };
    match p.kind {
        Pick::AddBoard => " add board".to_owned(),
        Pick::Board => text::cat2(" board", who.as_str()),
        Pick::Sketch => text::cat2(" sketch", who.as_str()),
        Pick::Port => text::cat2(" port", who.as_str()),
    }
}

fn nothing_for(app: &App, kind: Pick) -> (r: Option<Span>)
    ensures
        r.deep_view() == app@.nothing_to_pick(kind),
{
    match kind {
        Pick::AddBoard | Pick::Board => match &app.all_boards {
            None => Some(span("loading boards…".to_owned(), Tone::Dim)),
            Some(Err(e)) => Some(span(e.clone(), Tone::Bad)),
            Some(Ok(all)) => if all.len() == 0 {
                Some(
                    span(
                        "no cores installed — try: arduino-cli core install arduino:avr".to_owned(),
                        Tone::Dim,
                    ),
                )
            } else {
                None
            },
        },
        Pick::Sketch => if app.sketches.len() == 0 {
            Some(span(text::cat2("no .ino files under ", app.root.as_str()), Tone::Dim))
        } else {
            None
        },
        Pick::Port => if app.ports.len() == 0 {
            Some(span("no ports detected".to_owned(), Tone::Dim))
        } else {
            None
        },
    }
}

fn tree_lines(row: &TreeRow, detail: &str) -> (r: Vec<Vec<Span>>)
    ensures
        r.deep_view() == tree_item(row.deep_view(), detail@),
{
    let ghost dirs = row.0.deep_view();
    let ghost want = dirs.map_values(|d: (usize, Seq<char>)| folder_line(d.0 as nat, d.1));
    let mut lines: Vec<Vec<Span>> = Vec::new();
    for k in 0..row.0.len()
        invariant
            dirs == row.0.deep_view(),
            want == dirs.map_values(|d: (usize, Seq<char>)| folder_line(d.0 as nat, d.1)),
            lines.deep_view() == want.take(k as int),
    {
        let d = &row.0[k];
        assert(dirs[k as int] == (d.0, d.1@));
        let step = text::blank(d.0);
        let indent = text::cat2(step.as_str(), step.as_str());
        assert(indent@ =~= text::spaces((2 * d.0) as nat));
        let mut line: Vec<Span> = Vec::new();
        add_span(&mut line, text::cat4(" ", indent.as_str(), d.1.as_str(), "/"), Tone::Dim);
        assert(line.deep_view() =~= folder_line(d.0 as nat, d.1@));
        push_item(&mut lines, line);
        assert(lines.deep_view() =~= want.take(k + 1));
    }
    assert(lines.deep_view() =~= want);
    let step = text::blank(row.1);
    let indent = text::cat3(" ", step.as_str(), step.as_str());
    proof {
        reveal_strlit(" ");
        assert(indent@ =~= text::spaces((1 + 2 * row.1) as nat));
    }
    let mut leaf: Vec<Span> = Vec::new();
    add_span(&mut leaf, indent, Tone::Plain);
    add_bold(&mut leaf, row.2.clone(), Tone::Good);
    add_span(&mut leaf, text::cat2("  ", detail), Tone::Dim);
    assert(leaf.deep_view() =~= tree_item(row.deep_view(), detail@).last());
    push_item(&mut lines, leaf);
    lines
}

fn items_for(app: &App, kind: Pick) -> (r: Vec<Vec<Vec<Span>>>)
    ensures
        r.deep_view() == app@.pick_items(kind),
{
    let picks = app.picks();
    let ghost ps = app@.picks();
    let ghost want = app@.pick_items(kind);
    let mut items: Vec<Vec<Vec<Span>>> = Vec::new();
    if matches!(kind, Pick::Sketch) {
        let mut names: Vec<String> = Vec::new();
        for i in 0..picks.len()
            invariant
                ps == picks.deep_view(),
                names.deep_view() == labels(ps).take(i as int),
        {
            assert(ps[i as int] == (picks@[i as int].0@, picks@[i as int].1@));
            push_item(&mut names, picks[i].0.clone());
            assert(names.deep_view() =~= labels(ps).take(i + 1));
        }
        assert(names.deep_view() =~= labels(ps));
        let root = match &app.root_name {
            Some(n) => n.clone(),
            None => "sketch".to_owned(),
        };
        let labels_slice = names.as_slice();
        assert(labels_slice.deep_view() =~= names.deep_view());
        let rows = tree(labels_slice, root.as_str());
        for i in 0..picks.len()
            invariant
                ps == picks.deep_view(),
                rows.deep_view() == tree_rows(labels(ps), app@.root_label()),
                want == Seq::new(
                    ps.len(),
                    |i: int| tree_item(tree_rows(labels(ps), app@.root_label())[i], ps[i].1),
                ),
                items.deep_view() == want.take(i as int),
        {
            assert(rows.deep_view().len() == ps.len());
            assert(ps[i as int] == (picks@[i as int].0@, picks@[i as int].1@));
            assert(rows.deep_view()[i as int] == rows@[i as int].deep_view());
            push_item(&mut items, tree_lines(&rows[i], picks[i].1.as_str()));
            assert(items.deep_view() =~= want.take(i + 1));
        }
    } else {
        for i in 0..picks.len()
            invariant
                ps == picks.deep_view(),
                want == ps.map_values(|p: (Seq<char>, Seq<char>)| flat_item(p)),
                items.deep_view() == want.take(i as int),
        {
            assert(ps[i as int] == (picks@[i as int].0@, picks@[i as int].1@));
            let mut line: Vec<Span> = Vec::new();
            let label = text::pad(picks[i].0.as_str(), 40);
            add_span(&mut line, text::cat2(" ", label.as_str()), Tone::Plain);
            add_span(&mut line, picks[i].1.clone(), Tone::Dim);
            assert(line.deep_view() =~= flat_item(ps[i as int])[0]);
            let mut item: Vec<Vec<Span>> = Vec::new();
            push_item(&mut item, line);
            assert(item.deep_view() =~= flat_item(ps[i as int]));
            push_item(&mut items, item);
            assert(items.deep_view() =~= want.take(i + 1));
        }
    }
    assert(items.deep_view() =~= want);
    items
}

/// The list to pick from, as it is shown.
pub fn picker(app: &App, p: &Picker) -> (r: PickList)
    ensures
        r.deep_view() == app@.pick_list(p.deep_view()),
{
    let mut title: Vec<Span> = Vec::new();
    add_span(&mut title, what_of(app, p), Tone::Dim);
    add_span(&mut title, ": ".to_owned(), Tone::Dim);
    add_span(&mut title, p.query.clone(), Tone::Plain);
    add_span(&mut title, "▏".to_owned(), Tone::Accent);
    assert(title.deep_view() =~= app@.pick_list(p.deep_view()).title);
    let leaf = matches!(p.kind, Pick::Sketch);
    let empty = nothing_for(app, p.kind);
    if empty.is_some() {
        let items: Vec<Vec<Vec<Span>>> = Vec::new();
        assert(items.deep_view() =~= Seq::<Seq<Seq<SpanView>>>::empty());
        return PickList { title, empty, items, sel: p.sel, leaf };
    }
    let items = items_for(app, p.kind);
    PickList { title, empty, items, sel: p.sel, leaf }
}

} // verus!
