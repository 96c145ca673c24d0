//! The lines of the output files.
//!
//! Nothing is escaped: a title or a name that holds a space, a quote or a
//! line break is written as it is.

use vstd::prelude::*;
use vstd::string::StringExecFns;
use crate::clock::{decimal, push_decimal};
use crate::graph::{well_shaped, GraphView, LinkGraph};
use crate::text::push_char;

verus! {

/// The line of the edge list for a link from article `source` to article
/// `target`: the two numbers with a space between them.
pub open spec fn edge_text(source: nat, target: nat) -> Seq<char> {
    decimal(source) + seq![' '] + decimal(target) + seq!['\n']
}

/// The line of the title index for the article `number`: the number, a tab,
/// and the title between double quotes, as it is.
pub open spec fn title_text(number: nat, title: Seq<char>) -> Seq<char> {
    decimal(number) + seq!['\t', '"'] + title + seq!['"', '\n']
}

/// The line of the editor list for one editor of one article: the title, a
/// space and the editor's name, both as they are.
pub open spec fn editor_text(title: Seq<char>, editor: Seq<char>) -> Seq<char> {
    title + seq![' '] + editor + seq!['\n']
}

/// The line of the edge list for a link from `source` to `target`.
pub fn edge_line(source: usize, target: usize) -> (line: String)
    ensures
        line@ == edge_text(source as nat, target as nat),
{
    let mut line = String::new();
    push_decimal(&mut line, source as u64);
    push_char(&mut line, ' ');
    push_decimal(&mut line, target as u64);
    push_char(&mut line, '\n');
    line
}

/// The line of the title index for the article `number`.
pub fn title_line(number: usize, title: &str) -> (line: String)
    ensures
        line@ == title_text(number as nat, title@),
{
    let mut line = String::new();
    push_decimal(&mut line, number as u64);
    push_char(&mut line, '\t');
    push_char(&mut line, '"');
    line.append(title);
    push_char(&mut line, '"');
    push_char(&mut line, '\n');
    assert(line@ =~= title_text(number as nat, title@));
    line
}

/// The line of the editor list for `editor` of `title`.
pub fn editor_line(title: &str, editor: &str) -> (line: String)
    ensures
        line@ == editor_text(title@, editor@),
{
    let mut line = String::new();
    line.append(title);
    push_char(&mut line, ' ');
    line.append(editor);
    push_char(&mut line, '\n');
    assert(line@ =~= editor_text(title@, editor@));
    line
}

/// The links of the article `source` as pairs of source and target.
pub open spec fn edges_from(source: usize, row: Seq<usize>) -> Seq<(usize, usize)> {
    row.map_values(|target: usize| (source, target))
}

/// The links of all articles as pairs of source and target: by source, and
/// for one source in the order of its links.
pub open spec fn edges_of(rows: Seq<Seq<usize>>) -> Seq<(usize, usize)>
    decreases rows.len(),
{
    if rows.len() == 0 {
        Seq::empty()
    } else {
        edges_of(rows.drop_last()) + edges_from((rows.len() - 1) as usize, rows.last())
    }
}

/// The edge list holds exactly the links of the rows.
pub proof fn lemma_edges(rows: Seq<Seq<usize>>, e: (usize, usize))
    requires
        rows.len() <= usize::MAX,
    ensures
        edges_of(rows).contains(e) <==> e.0 < rows.len() && rows[e.0 as int].contains(e.1),
    decreases rows.len(),
{
    if rows.len() > 0 {
        let front = edges_of(rows.drop_last());
        let source = (rows.len() - 1) as usize;
        let back = edges_from(source, rows.last());
        let all = edges_of(rows);
        lemma_edges(rows.drop_last(), e);
        if all.contains(e) {
            let i = choose|i: int| 0 <= i < all.len() && all[i] == e;
            if i < front.len() {
                assert(front[i] == e);
                assert(rows.drop_last()[e.0 as int] == rows[e.0 as int]);
            } else {
                assert(back[i - front.len()] == e);
                assert(rows.last()[i - front.len()] == e.1);
            }
        }
        if e.0 < rows.len() && rows[e.0 as int].contains(e.1) {
            if e.0 < rows.len() - 1 {
                assert(rows.drop_last()[e.0 as int] == rows[e.0 as int]);
                let i = choose|i: int| 0 <= i < front.len() && front[i] == e;
                assert(all[i] == e);
            } else {
                let k = choose|k: int| 0 <= k < rows.last().len() && rows.last()[k] == e.1;
                assert(back[k] == e);
                assert(all[front.len() + k] == e);
            }
        }
    }
}

/// All links of the graph as pairs of numbers, in the order of the edge
/// list.
pub fn edge_list(graph: &LinkGraph) -> (edges: Vec<(usize, usize)>)
    requires
        graph.wf(),
    ensures
        edges@ == edges_of(graph@.rows),
{
    let mut edges: Vec<(usize, usize)> = Vec::new();
    let n = graph.len();
    let mut a: usize = 0;
    assert(graph@.rows.take(0) =~= Seq::empty());
    while a < n
        invariant
            graph.wf(),
            n == graph@.rows.len(),
            a <= n,
            edges@ == edges_of(graph@.rows.take(a as int)),
        decreases n - a,
    {
        let row = graph.row(a);
        let ghost before = edges@;
        let mut k: usize = 0;
        while k < row.len()
            invariant
                k <= row@.len(),
                edges@ == before + edges_from(a, row@.take(k as int)),
            decreases row@.len() - k,
        {
            edges.push((a, row[k]));
            assert(edges_from(a, row@.take(k + 1)) =~= edges_from(a, row@.take(k as int)).push(
                (a, row@[k as int]),
            ));
            k += 1;
        }
        assert(row@.take(k as int) =~= row@);
        assert(graph@.rows.take(a + 1).drop_last() =~= graph@.rows.take(a as int));
        a += 1;
    }
    assert(graph@.rows.take(a as int) =~= graph@.rows);
    edges
}

/// The title index and the edge list fit together.
///
/// Every number in the edge list is the number of a title, which has its
/// line in the title index. The other way round, a title's number stands in
/// the edge list as soon as the article links to an article or is linked
/// from one; an article without such links has a title line only.
pub proof fn lemma_round_trip(g: GraphView)
    requires
        well_shaped(g),
        g.titles.len() <= usize::MAX,
    ensures
        forall|e: (usize, usize)| #[trigger]
            edges_of(g.rows).contains(e) ==> e.0 < g.titles.len() && e.1 < g.titles.len(),
        forall|a: int, k: int|
            0 <= a < g.rows.len() && 0 <= k < g.rows[a].len() ==> edges_of(g.rows).contains(
                (a as usize, #[trigger] g.rows[a][k]),
            ),
{
    assert forall|e: (usize, usize)| #[trigger] edges_of(g.rows).contains(e) implies e.0
        < g.titles.len() && e.1 < g.titles.len() by {
        lemma_edges(g.rows, e);
        let k = choose|k: int| 0 <= k < g.rows[e.0 as int].len() && g.rows[e.0 as int][k] == e.1;
        assert(g.rows[e.0 as int][k] < g.titles.len());
    }
    assert forall|a: int, k: int| 0 <= a < g.rows.len() && 0 <= k < g.rows[a].len() implies edges_of(
        g.rows,
    ).contains((a as usize, #[trigger] g.rows[a][k])) by {
        lemma_edges(g.rows, (a as usize, g.rows[a][k]));
    }
}

} // verus!
