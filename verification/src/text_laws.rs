//! What numbers and diagnostics are written as.

use vstd::prelude::*;

use crate::format_diagnostics::DiagnosticLine;

verus! {

/// The number that a text of digits means.
pub open spec fn number_of(text: Seq<char>) -> int
    decreases text.len(),
{
    if text.len() == 0 {
        0
    } else {
        number_of(text.drop_last()) * 10 + (text.last() as int - '0' as int)
    }
}

/// A number that is written in decimal is made of digits, has no zero in front unless it is zero, and
/// reads as itself.
pub proof fn lemma_decimal_reads_back(n: nat)
    ensures
        number_of(crate::text::decimal(n)) == n,
        crate::text::decimal(n).len() > 0,
        forall|i: int|
            0 <= i < crate::text::decimal(n).len() ==> '0' <= #[trigger] crate::text::decimal(n)[i]
                <= '9',
        n > 0 ==> crate::text::decimal(n)[0] != '0',
    decreases n,
{
    let text = crate::text::decimal(n);
    if n < 10 {
        assert(text.drop_last() =~= Seq::<char>::empty());
        assert(number_of(text.drop_last()) == 0);
    } else {
        lemma_decimal_reads_back(n / 10);
        assert(text.drop_last() =~= crate::text::decimal(n / 10));
        assert(text[0] == crate::text::decimal(n / 10)[0]);
    }
}

/// An integer that is written in decimal has a sign in front exactly if it is negative, and the digits
/// of its magnitude behind it.
pub proof fn lemma_integer_reads_back(n: int)
    ensures
        n >= 0 ==> number_of(crate::text::integer_text(n)) == n,
        n < 0 ==> crate::text::integer_text(n).len() > 1 && crate::text::integer_text(n)[0] == '-'
            && number_of(crate::text::integer_text(n).drop_first()) == -n,
{
    if n < 0 {
        lemma_decimal_reads_back((-n) as nat);
        reveal_strlit("-");
        assert("-"@.len() == 1 && "-"@[0] == '-');
        assert(crate::text::integer_text(n).drop_first() =~= crate::text::decimal((-n) as nat));
    } else {
        lemma_decimal_reads_back(n as nat);
    }
}

/// Whether a text stands somewhere in another.
pub open spec fn stands_in(part: Seq<char>, whole: Seq<char>) -> bool {
    exists|before: Seq<char>, after: Seq<char>| whole == #[trigger] (before + part + after)
}

proof fn lemma_in_itself(part: Seq<char>)
    ensures
        stands_in(part, part),
{
    let nothing = Seq::<char>::empty();
    assert(part =~= nothing + part + nothing);
}

proof fn lemma_stands_in_more(part: Seq<char>, whole: Seq<char>, left: Seq<char>, right: Seq<char>)
    requires
        stands_in(part, whole),
    ensures
        stands_in(part, left + whole + right),
{
    let (before, after) = choose|before: Seq<char>, after: Seq<char>|
        whole == #[trigger] (before + part + after);
    assert(left + whole + right =~= (left + before) + part + (after + right));
}

/// What is said of a diagnostic: its level, the name of its expression and its message.
pub open spec fn said(diagnostic: DiagnosticLine) -> Seq<char> {
    "| ["@ + diagnostic.level.name() + "] "@ + diagnostic.name@ + ": "@ + diagnostic.message@
}

proof fn lemma_below(diagnostics: Seq<DiagnosticLine>, order: Seq<usize>, n: int, a: int)
    requires
        0 <= a < n <= order.len(),
    ensures
        stands_in(
            said(diagnostics[order[a] as int]),
            crate::format_diagnostics::diagnostics_below(diagnostics, order, n),
        ),
    decreases n,
{
    let below = crate::format_diagnostics::diagnostics_below(diagnostics, order, n);
    let fewer = crate::format_diagnostics::diagnostics_below(diagnostics, order, n - 1);
    let own = crate::format_diagnostics::diagnostic_text(diagnostics, order, order[n - 1] as int);
    let nothing = Seq::<char>::empty();
    if a < n - 1 {
        lemma_below(diagnostics, order, n - 1, a);
        lemma_stands_in_more(
            said(diagnostics[order[a] as int]),
            fewer,
            nothing,
            "\n"@ + own,
        );
        assert(below =~= nothing + fewer + ("\n"@ + own));
    } else {
        let j = order[a] as int;
        let margin = crate::format_diagnostics::margin(
            diagnostics,
            order,
            (diagnostics[j].column + crate::format_diagnostics::INDENT) as nat,
        );
        lemma_in_itself(said(diagnostics[j]));
        lemma_stands_in_more(
            said(diagnostics[j]),
            said(diagnostics[j]),
            fewer + "\n"@ + margin,
            nothing,
        );
        assert(below =~= (fewer + "\n"@ + margin) + said(diagnostics[j]) + nothing);
    }
}

proof fn lemma_reported(
    diagnostics: Seq<DiagnosticLine>,
    lines: Seq<Seq<char>>,
    orders: Seq<Seq<usize>>,
    all_lines: bool,
    n: int,
    k: int,
    part: Seq<char>,
)
    requires
        0 <= k < n,
        crate::format_diagnostics::is_shown(orders, all_lines, k),
        stands_in(part, crate::format_diagnostics::line_report(diagnostics, lines, orders, k)),
    ensures
        stands_in(
            part,
            crate::format_diagnostics::report(diagnostics, lines, orders, all_lines, n),
        ),
    decreases n,
{
    let nothing = Seq::<char>::empty();
    let before = crate::format_diagnostics::report(diagnostics, lines, orders, all_lines, n - 1);
    let own = crate::format_diagnostics::line_report(diagnostics, lines, orders, n - 1);
    let whole = crate::format_diagnostics::report(diagnostics, lines, orders, all_lines, n);
    if k < n - 1 {
        lemma_reported(diagnostics, lines, orders, all_lines, n - 1, k, part);
        lemma_stands_in_more(part, before, nothing, "\n"@ + own);
        lemma_stands_in_more(part, before, nothing, own);
        lemma_stands_in_more(part, before, nothing, nothing);
        if !crate::format_diagnostics::is_shown(orders, all_lines, n - 1) {
            assert(whole =~= nothing + before + nothing);
        } else if crate::format_diagnostics::any_shown(orders, all_lines, n - 1) {
            assert(whole =~= nothing + before + ("\n"@ + own));
        } else {
            assert(whole =~= nothing + before + own);
        }
    } else {
        lemma_stands_in_more(part, own, before + "\n"@, nothing);
        lemma_stands_in_more(part, own, before, nothing);
        if crate::format_diagnostics::any_shown(orders, all_lines, n - 1) {
            assert(whole =~= (before + "\n"@) + own + nothing);
        } else {
            assert(whole =~= before + own + nothing);
        }
    }
}

/// Every diagnostic is written out, with its level, the name of its expression and its message,
/// whatever line it is about.
pub proof fn lemma_every_diagnostic_is_written(
    query: Seq<char>,
    diagnostics: Seq<DiagnosticLine>,
    all_lines: bool,
    out: Seq<char>,
    j: int,
)
    requires
        crate::format_diagnostics::writes(query, diagnostics, all_lines, out),
        0 <= j < diagnostics.len(),
        j <= usize::MAX,
    ensures
        stands_in(said(diagnostics[j]), out),
{
    let lines = crate::format_diagnostics::query_lines(query);
    lemma_some_line(query);
    let count = lines.len();
    let orders = choose|orders: Seq<Seq<usize>>| #[trigger]
        crate::format_diagnostics::are_orders(diagnostics, count, orders) && out
            == crate::format_diagnostics::report(
            diagnostics,
            lines,
            orders,
            all_lines,
            count as int,
        );
    let k = crate::format_diagnostics::placed_at(diagnostics[j].line, count);
    assert(crate::format_diagnostics::is_order(diagnostics, count, k, orders[k]));
    assert(orders[k].contains(j as usize));
    let a = choose|a: int| 0 <= a < orders[k].len() && orders[k][a] == j as usize;
    let part = said(diagnostics[j]);
    let size = orders[k].len() as int;
    lemma_below(diagnostics, orders[k], size, a);
    let below = crate::format_diagnostics::diagnostics_below(diagnostics, orders[k], size);
    let heading = "ln "@ + crate::format_diagnostics::padded(
        crate::text::decimal((k + 1) as nat),
    ) + ": "@ + lines[k];
    lemma_stands_in_more(part, below, heading, Seq::empty());
    assert(crate::format_diagnostics::line_report(diagnostics, lines, orders, k) =~= heading + below
        + Seq::<char>::empty());
    lemma_reported(diagnostics, lines, orders, all_lines, count as int, k, part);
}

/// Every line of the query is written out, behind its number, if all lines are asked for.
pub proof fn lemma_every_line_is_written(
    query: Seq<char>,
    diagnostics: Seq<DiagnosticLine>,
    out: Seq<char>,
    k: int,
)
    requires
        crate::format_diagnostics::writes(query, diagnostics, true, out),
        0 <= k < crate::format_diagnostics::query_lines(query).len(),
    ensures
        stands_in(
            crate::text::decimal((k + 1) as nat) + ": "@ + crate::format_diagnostics::query_lines(
                query,
            )[k],
            out,
        ),
{
    let lines = crate::format_diagnostics::query_lines(query);
    let count = lines.len();
    let orders = choose|orders: Seq<Seq<usize>>| #[trigger]
        crate::format_diagnostics::are_orders(diagnostics, count, orders) && out
            == crate::format_diagnostics::report(diagnostics, lines, orders, true, count as int);
    let number = crate::text::decimal((k + 1) as nat);
    let part = number + ": "@ + lines[k];
    let below = crate::format_diagnostics::diagnostics_below(
        diagnostics,
        orders[k],
        orders[k].len() as int,
    );
    let own = crate::format_diagnostics::line_report(diagnostics, lines, orders, k);
    let nothing = Seq::<char>::empty();
    let spaces = if number.len() < 2 {
        "  "@
    } else if number.len() < 3 {
        " "@
    } else {
        nothing
    };
    lemma_in_itself(part);
    lemma_stands_in_more(part, part, "ln "@ + spaces, below);
    assert(own =~= ("ln "@ + spaces) + part + below);
    lemma_reported(diagnostics, lines, orders, true, count as int, k, part);
}

proof fn lemma_some_line(query: Seq<char>)
    ensures
        crate::format_diagnostics::query_lines(query).len() > 0,
{
}

/// The lines, each but the last with a line feed behind it.
pub open spec fn joined(lines: Seq<Seq<char>>) -> Seq<char>
    decreases lines.len(),
{
    if lines.len() == 0 {
        Seq::empty()
    } else if lines.len() == 1 {
        lines[0]
    } else {
        lines[0] + seq!['\n'] + joined(lines.drop_first())
    }
}

proof fn lemma_line_ends(text: Seq<char>, from: int)
    requires
        0 <= from <= text.len(),
    ensures
        from <= crate::format_diagnostics::line_end(text, from) <= text.len(),
        crate::format_diagnostics::line_end(text, from) < text.len()
            ==> text[crate::format_diagnostics::line_end(text, from)] == '\n',
        forall|i: int|
            from <= i < crate::format_diagnostics::line_end(text, from) ==> #[trigger] text[i]
                != '\n',
    decreases text.len() - from,
{
    if from < text.len() && text[from] != '\n' {
        lemma_line_ends(text, from + 1);
    }
}

/// The lines of a query, with line feeds between them, make up the query again, but for a line feed at
/// its end. This is so of a query without carriage returns.
pub proof fn lemma_lines_make_up_the_query(query: Seq<char>)
    requires
        forall|i: int| 0 <= i < query.len() ==> #[trigger] query[i] != '\r',
    ensures
        joined(crate::format_diagnostics::query_lines(query)) == query || joined(
            crate::format_diagnostics::query_lines(query),
        ).push('\n') == query,
{
    if query.len() > 0 {
        lemma_lines_from(query, 0);
        assert(query.subrange(0, query.len() as int) =~= query);
    } else {
        assert(joined(crate::format_diagnostics::query_lines(query)) =~= query);
    }
}

proof fn lemma_lines_from(text: Seq<char>, from: int)
    requires
        0 <= from < text.len(),
        forall|i: int| 0 <= i < text.len() ==> #[trigger] text[i] != '\r',
    ensures
        crate::format_diagnostics::lines_from(text, from).len() > 0,
        joined(crate::format_diagnostics::lines_from(text, from)) == text.subrange(
            from,
            text.len() as int,
        ) || joined(crate::format_diagnostics::lines_from(text, from)).push('\n') == text.subrange(
            from,
            text.len() as int,
        ),
    decreases text.len() - from,
{
    lemma_line_ends(text, from);
    let end = crate::format_diagnostics::line_end(text, from);
    let all = text.subrange(from, text.len() as int);
    let lines = crate::format_diagnostics::lines_from(text, from);
    if end < text.len() {
        let first = text.subrange(from, end);
        if first.len() > 0 {
            assert(first.last() == text[end - 1]);
        }
        assert(crate::format_diagnostics::without_return(first) == first);
        let rest = crate::format_diagnostics::lines_from(text, end + 1);
        assert(lines == seq![first] + rest);
        assert(lines.drop_first() =~= rest);
        if end + 1 < text.len() {
            lemma_lines_from(text, end + 1);
            assert(lines.len() > 1);
            let tail = text.subrange(end + 1, text.len() as int);
            assert(all =~= first + seq!['\n'] + tail);
            if joined(rest) == tail {
                assert(joined(lines) =~= all);
            } else {
                assert(joined(lines).push('\n') =~= first + seq!['\n'] + joined(rest).push('\n'));
            }
        } else {
            assert(rest =~= Seq::<Seq<char>>::empty());
            assert(lines.len() == 1);
            assert(joined(lines).push('\n') =~= all);
        }
    } else {
        assert(lines == seq![all]);
    }
}

/// The diagnostics about a line are those whose number is that of the line, and, about the first one,
/// those whose number is that of no line. They go from right to left, and those about one column in the
/// order in which they came.
pub proof fn lemma_diagnostics_of_a_line(
    diagnostics: Seq<DiagnosticLine>,
    count: nat,
    line: int,
    order: Seq<usize>,
    a: int,
    b: int,
)
    requires
        crate::format_diagnostics::is_order(diagnostics, count, line, order),
        0 <= line < count,
        0 <= a < b < order.len(),
    ensures
        order[a] < diagnostics.len() && order[b] < diagnostics.len(),
        diagnostics[order[a] as int].line == line + 1 || (line == 0 && (
        diagnostics[order[a] as int].line == 0 || diagnostics[order[a] as int].line > count)),
        diagnostics[order[a] as int].column >= diagnostics[order[b] as int].column,
        diagnostics[order[a] as int].column == diagnostics[order[b] as int].column ==> order[a]
            < order[b],
{
    assert(crate::format_diagnostics::comes_before(diagnostics, order[a], order[b]));
}

}
