//! A query, written out line by line with the diagnostics below the places that they are about.

use std::rc::Rc;

use vstd::prelude::*;

use crate::engine_diagnostic::{ColumnarEngineDiagnostic, ColumnarEngineDiagnosticLevel};
use crate::expressions::ExpressionFunctions;
use crate::message_text::message_text;
use crate::text::decimal_text;

verus! {

/// How far the text of a line is indented.
pub const INDENT: usize = 7;

/// A diagnostic, with its message written out.
pub struct DiagnosticLine {
    pub level: ColumnarEngineDiagnosticLevel,
    pub name: Rc<String>,
    pub line: usize,
    pub column: usize,
    pub message: String,
}

/// Where the line that goes on at a place ends.
pub open spec fn line_end(text: Seq<char>, from: int) -> int
    decreases text.len() - from,
{
    if from >= text.len() || text[from] == '\n' {
        from
    } else {
        line_end(text, from + 1)
    }
}

/// A line without the carriage return at its end.
pub open spec fn without_return(line: Seq<char>) -> Seq<char> {
    if line.len() > 0 && line.last() == '\r' {
        line.drop_last()
    } else {
        line
    }
}

/// The lines of a text from a place on. A line ends with a line feed, or a carriage return and a
/// line feed; the last one may go without.
pub open spec fn lines_from(text: Seq<char>, from: int) -> Seq<Seq<char>>
    decreases text.len() - from,
{
    let end = line_end(text, from);
    if from >= text.len() {
        Seq::empty()
    } else if end >= text.len() || end < from {
        seq![text.subrange(from, text.len() as int)]
    } else {
        seq![without_return(text.subrange(from, end))] + lines_from(text, end + 1)
    }
}

/// The lines of a query: at least one.
pub open spec fn query_lines(query: Seq<char>) -> Seq<Seq<char>> {
    if query.len() == 0 {
        seq![Seq::empty()]
    } else {
        lines_from(query, 0)
    }
}

/// The texts.
pub open spec fn texts(list: Seq<String>) -> Seq<Seq<char>> {
    Seq::new(list.len(), |i: int| list[i]@)
}

proof fn lemma_line_end(text: Seq<char>, from: int, at: int)
    requires
        0 <= from <= at <= text.len(),
        forall|i: int| from <= i < at ==> text[i] != '\n',
        at == text.len() || text[at] == '\n',
    ensures
        line_end(text, from) == at,
    decreases at - from,
{
    if from < at {
        lemma_line_end(text, from + 1, at);
    }
}

/// The lines of a query.
fn split_lines(query: &str) -> (r: Vec<String>)
    ensures
        texts(r@) == query_lines(query@),
        r@.len() > 0,
{
    let mut r: Vec<String> = Vec::new();
    let length: usize = query.unicode_len();
    if length == 0 {
        let empty: String = String::new();
        proof {
            assert(empty@ =~= Seq::<char>::empty());
        }
        r.push(empty);
        assert(texts(r@) =~= query_lines(query@));
        return r;
    }
    let mut from: usize = 0;
    proof {
        assert(texts(r@) + lines_from(query@, 0) =~= lines_from(query@, 0));
    }
    while from < length
        invariant
            from <= length,
            length == query@.len(),
            texts(r@) + lines_from(query@, from as int) == lines_from(query@, 0),
            from > 0 ==> r@.len() > 0,
        decreases length - from,
    {
        let ghost before = texts(r@);
        let mut end: usize = from;
        while end < length && query.get_char(end) != '\n'
            invariant
                from <= end <= length,
                length == query@.len(),
                forall|i: int| from <= i < end ==> query@[i] != '\n',
            decreases length - end,
        {
            end = end + 1;
        }
        proof {
            lemma_line_end(query@, from as int, end as int);
        }
        if end >= length {
            r.push(query.substring_char(from, length).to_owned());
            proof {
                assert(lines_from(query@, length as int) =~= Seq::empty());
                assert(texts(r@) =~= before.push(query@.subrange(from as int, length as int)));
                assert(texts(r@) + lines_from(query@, length as int) =~= before + lines_from(
                    query@,
                    from as int,
                ));
            }
            from = length;
        } else {
            let cut: usize = if end > from && query.get_char(end - 1) == '\r' {
                end - 1
            } else {
                end
            };
            r.push(query.substring_char(from, cut).to_owned());
            proof {
                let line = query@.subrange(from as int, end as int);
                if end > from {
                    assert(line.last() == query@[end - 1]);
                    assert(line.drop_last() =~= query@.subrange(from as int, end - 1));
                }
                assert(without_return(line) =~= query@.subrange(from as int, cut as int));
                assert(texts(r@) =~= before.push(without_return(line)));
                assert(texts(r@) + lines_from(query@, end + 1) =~= before + (seq![
                    without_return(line),
                ] + lines_from(query@, end + 1)));
            }
            from = end + 1;
        }
    }
    proof {
        assert(lines_from(query@, from as int) =~= Seq::empty());
        assert(texts(r@) + lines_from(query@, from as int) =~= texts(r@));
    }
    r
}

/// The line that a diagnostic is about, counted from zero; the first one if the query has no such
/// line.
pub open spec fn placed_at(line: usize, count: nat) -> int {
    if 1 <= line <= count {
        line - 1
    } else {
        0
    }
}

/// Whether a diagnostic comes before another: it is further to the right, or came first.
pub open spec fn comes_before(
    diagnostics: Seq<DiagnosticLine>,
    first: usize,
    second: usize,
) -> bool {
    let left = diagnostics[first as int].column;
    let right = diagnostics[second as int].column;
    left > right || (left == right && first < second)
}

/// Whether these are the diagnostics about a line, from right to left.
pub open spec fn is_order(
    diagnostics: Seq<DiagnosticLine>,
    count: nat,
    line: int,
    order: Seq<usize>,
) -> bool {
    &&& forall|a: int|
        0 <= a < order.len() ==> #[trigger] order[a] < diagnostics.len() && placed_at(
            diagnostics[order[a] as int].line,
            count,
        ) == line
    &&& forall|j: int|
        0 <= j < diagnostics.len() && placed_at((#[trigger] diagnostics[j]).line, count) == line
            ==> order.contains(j as usize)
    &&& forall|a: int, b: int|
        0 <= a < b < order.len() ==> comes_before(
            diagnostics,
            #[trigger] order[a],
            #[trigger] order[b],
        )
}

/// The diagnostics about a line, from right to left.
fn order_diagnostics(diagnostics: &Vec<DiagnosticLine>, count: usize, line: usize) -> (order: Vec<
    usize,
>)
    ensures
        is_order(diagnostics@, count as nat, line as int, order@),
{
    let mut order: Vec<usize> = Vec::new();
    let mut j: usize = 0;
    while j < diagnostics.len()
        invariant
            j <= diagnostics@.len(),
            forall|a: int|
                0 <= a < order@.len() ==> #[trigger] order@[a] < j && placed_at(
                    diagnostics@[order@[a] as int].line,
                    count as nat,
                ) == line,
            forall|i: int|
                0 <= i < j && placed_at((#[trigger] diagnostics@[i]).line, count as nat) == line
                    ==> order@.contains(i as usize),
            forall|a: int, b: int|
                0 <= a < b < order@.len() ==> comes_before(
                    diagnostics@,
                    #[trigger] order@[a],
                    #[trigger] order@[b],
                ),
        decreases diagnostics@.len() - j,
    {
        let own: usize = diagnostics[j].line;
        let place: usize = if 1 <= own && own <= count {
            own - 1
        } else {
            0
        };
        if place == line {
            let column: usize = diagnostics[j].column;
            let mut p: usize = 0;
            while p < order.len() && diagnostics[order[p]].column >= column
                invariant
                    p <= order@.len(),
                    j < diagnostics@.len(),
                    forall|a: int| 0 <= a < order@.len() ==> #[trigger] order@[a] < j,
                    forall|a: int|
                        0 <= a < p ==> diagnostics@[#[trigger] order@[a] as int].column >= column,
                decreases order@.len() - p,
            {
                p = p + 1;
            }
            let ghost before = order@;
            order.insert(p, j);
            proof {
                lemma_inserted(diagnostics@, before, p as int, j);
                assert(order@ =~= before.insert(p as int, j));
                assert forall|i: int|
                    0 <= i < j + 1 && placed_at((#[trigger] diagnostics@[i]).line, count as nat)
                        == line implies order@.contains(i as usize) by {
                    if i == j {
                        assert(order@[p as int] == j);
                    } else {
                        let a = choose|a: int| 0 <= a < before.len() && before[a] == i as usize;
                        if a < p {
                            assert(order@[a] == i as usize);
                        } else {
                            assert(order@[a + 1] == i as usize);
                        }
                    }
                }
                assert forall|a: int| 0 <= a < order@.len() implies #[trigger] order@[a] < j + 1
                    && placed_at(diagnostics@[order@[a] as int].line, count as nat) == line by {
                    if a < p {
                        assert(order@[a] == before[a]);
                    } else if a > p {
                        assert(order@[a] == before[a - 1]);
                    }
                }
            }
        }
        j = j + 1;
    }
    order
}

proof fn lemma_inserted(diagnostics: Seq<DiagnosticLine>, order: Seq<usize>, p: int, j: usize)
    requires
        0 <= p <= order.len(),
        forall|a: int| 0 <= a < order.len() ==> #[trigger] order[a] < j,
        forall|a: int, b: int|
            0 <= a < b < order.len() ==> comes_before(
                diagnostics,
                #[trigger] order[a],
                #[trigger] order[b],
            ),
        forall|a: int|
            0 <= a < p ==> diagnostics[#[trigger] order[a] as int].column
                >= diagnostics[j as int].column,
        p < order.len() ==> diagnostics[order[p] as int].column < diagnostics[j as int].column,
    ensures
        forall|a: int, b: int|
            0 <= a < b <= order.len() ==> comes_before(
                diagnostics,
                #[trigger] order.insert(p, j)[a],
                #[trigger] order.insert(p, j)[b],
            ),
{
    let after = order.insert(p, j);
    assert forall|a: int, b: int| 0 <= a < b <= order.len() implies comes_before(
        diagnostics,
        #[trigger] after[a],
        #[trigger] after[b],
    ) by {
        let x: int = if a < p {
            a
        } else {
            a - 1
        };
        let y: int = if b < p {
            b
        } else {
            b - 1
        };
        if a == p {
            assert(after[b] == order[y]);
            if y > p {
                assert(comes_before(diagnostics, order[p], order[y]));
            }
        } else if b == p {
            assert(after[a] == order[x]);
        } else {
            assert(after[a] == order[x]);
            assert(after[b] == order[y]);
            assert(comes_before(diagnostics, order[x], order[y]));
        }
    }
}

/// Whether a diagnostic about the line stands in a column of the output.
pub open spec fn is_marked(diagnostics: Seq<DiagnosticLine>, order: Seq<usize>, at: int) -> bool {
    exists|a: int|
        0 <= a < order.len() && diagnostics[#[trigger] order[a] as int].column + INDENT == at
}

/// What stands in front of a diagnostic: a bar below each place that another one is about, else
/// spaces.
pub open spec fn margin(diagnostics: Seq<DiagnosticLine>, order: Seq<usize>, width: nat) -> Seq<
    char,
> {
    Seq::new(
        width,
        |at: int|
            if is_marked(diagnostics, order, at) {
                '|'
            } else {
                ' '
            },
    )
}

/// Whether a diagnostic about the line stands in a column of the output.
fn find_mark(diagnostics: &Vec<DiagnosticLine>, order: &Vec<usize>, at: usize) -> (r: bool)
    requires
        columns_fit(diagnostics@),
        forall|a: int| 0 <= a < order@.len() ==> #[trigger] order@[a] < diagnostics@.len(),
    ensures
        r == is_marked(diagnostics@, order@, at as int),
{
    let mut a: usize = 0;
    while a < order.len()
        invariant
            a <= order@.len(),
            columns_fit(diagnostics@),
            forall|b: int| 0 <= b < order@.len() ==> #[trigger] order@[b] < diagnostics@.len(),
            forall|b: int|
                0 <= b < a ==> diagnostics@[#[trigger] order@[b] as int].column + INDENT != at,
        decreases order@.len() - a,
    {
        assert(diagnostics@[order@[a as int] as int].column + INDENT <= usize::MAX);
        if diagnostics[order[a]].column + INDENT == at {
            return true;
        }
        a = a + 1;
    }
    false
}

/// Writes what stands in front of a diagnostic.
fn write_margin(
    diagnostics: &Vec<DiagnosticLine>,
    order: &Vec<usize>,
    width: usize,
    r: &mut String,
)
    requires
        columns_fit(diagnostics@),
        forall|a: int| 0 <= a < order@.len() ==> #[trigger] order@[a] < diagnostics@.len(),
    ensures
        final(r)@ == old(r)@ + margin(diagnostics@, order@, width as nat),
{
    let ghost before = r@;
    let mut at: usize = 0;
    proof {
        reveal_strlit("|");
        reveal_strlit(" ");
        assert("|"@ =~= seq!['|']);
        assert(" "@ =~= seq![' ']);
        assert(before + margin(diagnostics@, order@, 0) =~= before);
    }
    while at < width
        invariant
            at <= width,
            columns_fit(diagnostics@),
            forall|a: int| 0 <= a < order@.len() ==> #[trigger] order@[a] < diagnostics@.len(),
            r@ == before + margin(diagnostics@, order@, at as nat),
            "|"@ == seq!['|'],
            " "@ == seq![' '],
        decreases width - at,
    {
        if find_mark(diagnostics, order, at) {
            r.append("|");
        } else {
            r.append(" ");
        }
        at = at + 1;
        proof {
            assert(margin(diagnostics@, order@, at as nat) =~= margin(
                diagnostics@,
                order@,
                (at - 1) as nat,
            ).push(margin(diagnostics@, order@, at as nat).last()));
            assert(r@ =~= before + margin(diagnostics@, order@, at as nat));
        }
    }
}

/// A diagnostic as it stands below its line.
pub open spec fn diagnostic_text(
    diagnostics: Seq<DiagnosticLine>,
    order: Seq<usize>,
    j: int,
) -> Seq<char> {
    margin(diagnostics, order, (diagnostics[j].column + INDENT) as nat) + "| ["@
        + diagnostics[j].level.name() + "] "@ + diagnostics[j].name@ + ": "@
        + diagnostics[j].message@
}

/// The first `n` diagnostics about a line, each on a line of its own.
pub open spec fn diagnostics_below(
    diagnostics: Seq<DiagnosticLine>,
    order: Seq<usize>,
    n: int,
) -> Seq<char>
    decreases n,
{
    if n <= 0 {
        Seq::empty()
    } else {
        diagnostics_below(diagnostics, order, n - 1) + "\n"@ + diagnostic_text(
            diagnostics,
            order,
            order[n - 1] as int,
        )
    }
}

/// Whether the columns are small enough to be written.
pub open spec fn columns_fit(diagnostics: Seq<DiagnosticLine>) -> bool {
    forall|j: int|
        0 <= j < diagnostics.len() ==> (#[trigger] diagnostics[j]).column + INDENT <= usize::MAX
}

/// Writes the diagnostics about a line.
fn write_below(diagnostics: &Vec<DiagnosticLine>, order: &Vec<usize>, r: &mut String)
    requires
        columns_fit(diagnostics@),
        forall|a: int| 0 <= a < order@.len() ==> #[trigger] order@[a] < diagnostics@.len(),
    ensures
        final(r)@ == old(r)@ + diagnostics_below(diagnostics@, order@, order@.len() as int),
{
    let ghost before = r@;
    let mut a: usize = 0;
    proof {
        assert(before + diagnostics_below(diagnostics@, order@, 0) =~= before);
    }
    while a < order.len()
        invariant
            a <= order@.len(),
            columns_fit(diagnostics@),
            forall|b: int| 0 <= b < order@.len() ==> #[trigger] order@[b] < diagnostics@.len(),
            r@ == before + diagnostics_below(diagnostics@, order@, a as int),
        decreases order@.len() - a,
    {
        let j: usize = order[a];
        assert(diagnostics@[j as int].column + INDENT <= usize::MAX);
        r.append("\n");
        write_margin(diagnostics, order, diagnostics[j].column + INDENT, r);
        r.append("| [");
        r.append(diagnostics[j].level.get_name());
        r.append("] ");
        r.append(diagnostics[j].name.as_str());
        r.append(": ");
        r.append(diagnostics[j].message.as_str());
        a = a + 1;
        proof {
            assert(r@ =~= before + diagnostics_below(diagnostics@, order@, a as int));
        }
    }
}

/// A text, with spaces in front of it so that it has at least three characters.
pub open spec fn padded(text: Seq<char>) -> Seq<char> {
    if text.len() < 2 {
        "  "@ + text
    } else if text.len() < 3 {
        " "@ + text
    } else {
        text
    }
}

/// Whether a line is written.
pub open spec fn is_shown(orders: Seq<Seq<usize>>, all_lines: bool, k: int) -> bool {
    all_lines || orders[k].len() > 0
}

/// Whether any of the first `n` lines is written.
pub open spec fn any_shown(orders: Seq<Seq<usize>>, all_lines: bool, n: int) -> bool {
    exists|k: int| 0 <= k < n && #[trigger] is_shown(orders, all_lines, k)
}

/// A line with the diagnostics about it below.
pub open spec fn line_report(
    diagnostics: Seq<DiagnosticLine>,
    lines: Seq<Seq<char>>,
    orders: Seq<Seq<usize>>,
    k: int,
) -> Seq<char> {
    "ln "@ + padded(crate::text::decimal((k + 1) as nat)) + ": "@ + lines[k] + diagnostics_below(
        diagnostics,
        orders[k],
        orders[k].len() as int,
    )
}

/// The first `n` lines with the diagnostics about them below.
pub open spec fn report(
    diagnostics: Seq<DiagnosticLine>,
    lines: Seq<Seq<char>>,
    orders: Seq<Seq<usize>>,
    all_lines: bool,
    n: int,
) -> Seq<char>
    decreases n,
{
    if n <= 0 {
        Seq::empty()
    } else {
        let before = report(diagnostics, lines, orders, all_lines, n - 1);
        if !is_shown(orders, all_lines, n - 1) {
            before
        } else if any_shown(orders, all_lines, n - 1) {
            before + "\n"@ + line_report(diagnostics, lines, orders, n - 1)
        } else {
            before + line_report(diagnostics, lines, orders, n - 1)
        }
    }
}

/// Whether these are the diagnostics about each line, from right to left.
pub open spec fn are_orders(
    diagnostics: Seq<DiagnosticLine>,
    count: nat,
    orders: Seq<Seq<usize>>,
) -> bool {
    &&& orders.len() == count
    &&& forall|k: int|
        0 <= k < count ==> is_order(diagnostics, count, k, #[trigger] orders[k])
}

/// Whether a query is written out so.
pub open spec fn writes(
    query: Seq<char>,
    diagnostics: Seq<DiagnosticLine>,
    all_lines: bool,
    out: Seq<char>,
) -> bool {
    let lines = query_lines(query);
    exists|orders: Seq<Seq<usize>>| #[trigger]
        are_orders(diagnostics, lines.len(), orders) && out == report(
            diagnostics,
            lines,
            orders,
            all_lines,
            lines.len() as int,
        )
}

proof fn lemma_report(
    diagnostics: Seq<DiagnosticLine>,
    lines: Seq<Seq<char>>,
    orders: Seq<Seq<usize>>,
    order: Seq<usize>,
    all_lines: bool,
    n: int,
)
    requires
        0 <= n <= orders.len(),
    ensures
        report(diagnostics, lines, orders.push(order), all_lines, n) == report(
            diagnostics,
            lines,
            orders,
            all_lines,
            n,
        ),
        any_shown(orders.push(order), all_lines, n) == any_shown(orders, all_lines, n),
    decreases n,
{
    let more = orders.push(order);
    assert forall|k: int| 0 <= k < n implies is_shown(more, all_lines, k) == is_shown(
        orders,
        all_lines,
        k,
    ) by {
        assert(more[k] == orders[k]);
    }
    if any_shown(orders, all_lines, n) {
        let k = choose|k: int| 0 <= k < n && #[trigger] is_shown(orders, all_lines, k);
        assert(is_shown(more, all_lines, k));
    }
    if any_shown(more, all_lines, n) {
        let k = choose|k: int| 0 <= k < n && #[trigger] is_shown(more, all_lines, k);
        assert(is_shown(orders, all_lines, k));
    }
    if n > 0 {
        lemma_report(diagnostics, lines, orders, order, all_lines, n - 1);
        assert(more[n - 1] == orders[n - 1]);
    }
}

/// Writes a number with at least three characters.
fn write_number(number: u64, r: &mut String)
    ensures
        final(r)@ == old(r)@ + padded(crate::text::decimal(number as nat)),
{
    let ghost before = r@;
    let text: String = decimal_text(number);
    let length: usize = text.as_str().unicode_len();
    if length < 2 {
        r.append("  ");
    } else if length < 3 {
        r.append(" ");
    }
    r.append(text.as_str());
    assert(r@ =~= before + padded(crate::text::decimal(number as nat)));
}

/// Writes a query out line by line, each with the diagnostics about it below, or only those lines
/// that there are some about.
pub fn write_diagnostics(query: &str, diagnostics: &Vec<DiagnosticLine>, all_lines: bool) -> (r:
    String)
    requires
        columns_fit(diagnostics@),
    ensures
        writes(query@, diagnostics@, all_lines, r@),
{
    let lines: Vec<String> = split_lines(query);
    let count: usize = lines.len();
    let ghost shown_lines = query_lines(query@);
    let ghost mut orders: Seq<Seq<usize>> = Seq::empty();
    let mut r: String = String::new();
    let mut is_first_line: bool = true;
    let mut k: usize = 0;
    proof {
        assert(r@ =~= Seq::<char>::empty());
    }
    while k < count
        invariant
            k <= count,
            count == lines@.len(),
            columns_fit(diagnostics@),
            texts(lines@) == shown_lines,
            orders.len() == k,
            forall|j: int|
                0 <= j < k ==> is_order(
                    diagnostics@,
                    count as nat,
                    j,
                    #[trigger] orders[j],
                ),
            is_first_line == !any_shown(orders, all_lines, k as int),
            r@ == report(diagnostics@, shown_lines, orders, all_lines, k as int),
        decreases count - k,
    {
        let order: Vec<usize> = order_diagnostics(diagnostics, count, k);
        let ghost before = orders;
        proof {
            lemma_report(diagnostics@, shown_lines, before, order@, all_lines, k as int);
            orders = before.push(order@);
            assert(orders[k as int] == order@);
            assert(texts(lines@)[k as int] == lines@[k as int]@);
        }
        if all_lines || order.len() > 0 {
            if is_first_line {
                is_first_line = false;
            } else {
                r.append("\n");
            }
            let ghost started = r@;
            r.append("ln ");
            write_number(k as u64 + 1, &mut r);
            r.append(": ");
            r.append(lines[k].as_str());
            write_below(diagnostics, &order, &mut r);
            proof {
                assert(r@ =~= started + line_report(
                    diagnostics@,
                    shown_lines,
                    orders,
                    k as int,
                ));
                assert(is_shown(orders, all_lines, k as int));
                assert(any_shown(orders, all_lines, k + 1));
            }
        } else {
            proof {
                assert(!is_shown(orders, all_lines, k as int));
                if any_shown(orders, all_lines, k + 1) {
                    let j = choose|j: int|
                        0 <= j < k + 1 && #[trigger] is_shown(orders, all_lines, j);
                    assert(any_shown(orders, all_lines, k as int));
                }
                if any_shown(orders, all_lines, k as int) {
                    let j = choose|j: int|
                        0 <= j < k && #[trigger] is_shown(orders, all_lines, j);
                    assert(any_shown(orders, all_lines, k + 1));
                }
            }
        }
        k = k + 1;
    }
    proof {
        assert(shown_lines.len() == count);
        assert(are_orders(diagnostics@, count as nat, orders));
    }
    r
}

/// Whether a diagnostic is written so.
pub open spec fn diagnostic_says<F: ExpressionFunctions>(
    functions: &F,
    tables: Seq<String>,
    diagnostic: ColumnarEngineDiagnostic,
    line: DiagnosticLine,
) -> bool {
    &&& line.level == diagnostic.diagnostic_level
    &&& line.name == diagnostic.expression.name
    &&& line.line == diagnostic.expression.line
    &&& line.column == diagnostic.expression.column
    &&& crate::message_text::message_says(
        functions,
        tables,
        diagnostic.message,
        line.message@,
    )
}

/// Whether diagnostics are written so.
pub open spec fn diagnostics_say<F: ExpressionFunctions>(
    functions: &F,
    tables: Seq<String>,
    diagnostics: Seq<ColumnarEngineDiagnostic>,
    lines: Seq<DiagnosticLine>,
) -> bool {
    &&& lines.len() == diagnostics.len()
    &&& forall|j: int|
        0 <= j < lines.len() ==> diagnostic_says(
            functions,
            tables,
            diagnostics[j],
            #[trigger] lines[j],
        )
}

/// Writes a query out, with its diagnostics.
pub fn format_diagnostics<F: ExpressionFunctions>(
    functions: &F,
    tables: &Vec<String>,
    query: &str,
    diagnostics: &Vec<ColumnarEngineDiagnostic>,
) -> (r: String)
    requires
        forall|j: int|
            0 <= j < diagnostics@.len() ==> (#[trigger] diagnostics@[j]).expression.column + INDENT
                <= usize::MAX,
    ensures
        exists|lines: Seq<DiagnosticLine>| #[trigger]
            diagnostics_say(functions, tables@, diagnostics@, lines) && writes(
                query@,
                lines,
                true,
                r@,
            ),
{
    let mut lines: Vec<DiagnosticLine> = Vec::new();
    let mut j: usize = 0;
    while j < diagnostics.len()
        invariant
            j <= diagnostics@.len(),
            lines@.len() == j,
            forall|i: int|
                0 <= i < j ==> diagnostic_says(
                    functions,
                    tables@,
                    diagnostics@[i],
                    #[trigger] lines@[i],
                ),
        decreases diagnostics@.len() - j,
    {
        let diagnostic = &diagnostics[j];
        let message: String = message_text(functions, tables, &diagnostic.message);
        lines.push(
            DiagnosticLine {
                level: diagnostic.diagnostic_level,
                name: diagnostic.expression.name.clone(),
                line: diagnostic.expression.line,
                column: diagnostic.expression.column,
                message,
            },
        );
        j = j + 1;
    }
    proof {
        assert forall|i: int| 0 <= i < lines@.len() implies (#[trigger] lines@[i]).column + INDENT
            <= usize::MAX by {
            assert(diagnostics@[i].expression.column + INDENT <= usize::MAX);
        }
    }
    let r = write_diagnostics(query, &lines, true);
    assert(diagnostics_say(functions, tables@, diagnostics@, lines@));
    r
}

} // verus!
