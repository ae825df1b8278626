//! `flow status`: every run in a table with its kind, its stage and its
//! progress, the current run marked, then whatever drift was found.
use crate::drift::drift_view;
use crate::run::{current_spec, settled_count, Drift, Run, RunStatus};
use crate::text::{decimal, join_seq, owned, push_str, trim_end_seq, views};
use vstd::prelude::*;

verus! {

/// The runs `flow status` shows: every run with `all`, else the active ones,
/// in the order given.
pub open spec fn visible_spec(runs: Seq<Run>, all: bool) -> Seq<Run>
    decreases runs.len(),
{
    if runs.len() == 0 {
        Seq::empty()
    } else if all || runs.last().meta.status != RunStatus::Finished {
        visible_spec(runs.drop_last(), all).push(runs.last())
    } else {
        visible_spec(runs.drop_last(), all)
    }
}

/// The runs to show: all of them, or only the active ones.
pub fn visible(runs: Vec<Run>, all: bool) -> (r: Vec<Run>)
    ensures
        r@ == visible_spec(runs@, all),
{
    let n0: usize = runs.len();
    let ghost orig = runs@;
    assert(orig.len() == n0);
    let mut rest = runs;
    let mut out: Vec<Run> = Vec::new();
    let mut k: usize = 0;
    while rest.len() > 0
        invariant
            orig.len() <= usize::MAX,
            k + rest@.len() == orig.len(),
            rest@ == orig.skip(k as int),
            out@ == visible_spec(orig.take(k as int), all),
        decreases rest.len(),
    {
        let r = rest.remove(0);
        assert(orig.take(k + 1).drop_last() =~= orig.take(k as int));
        assert(orig.take(k + 1).last() == r);
        if all || !r.is_finished() {
            out.push(r);
        }
        k = k + 1;
        assert(rest@ =~= orig.skip(k as int));
    }
    assert(orig.take(k as int) =~= orig);
    out
}

/// The column headings.
pub open spec fn headers() -> Seq<Seq<char>> {
    seq!["RUN"@, "KIND"@, "STAGE"@, "DONE"@]
}

/// What the stage column says of a run: `finished`, the stage it is on, or a
/// dash when every stage is settled.
pub open spec fn stage_cell(r: Run) -> Seq<char> {
    if r.meta.status == RunStatus::Finished {
        "finished"@
    } else {
        match current_spec(r.meta.stages@) {
            Some(i) => r.meta.stages@[i].name@,
            None => "—"@,
        }
    }
}

/// The cells of a run's row: slug, kind (a dash without one), stage, and
/// settled stages over all of them.
#[verifier::opaque]
pub open spec fn row_cells(r: Run) -> Seq<Seq<char>> {
    seq![
        r.meta.slug@,
        if r.meta.kind@.len() == 0 {
            "—"@
        } else {
            r.meta.kind@
        },
        stage_cell(r),
        decimal(settled_count(r.meta.stages@)) + "/"@ + decimal(r.meta.stages@.len()),
    ]
}

/// The width of column `c` over the heading and the first `n` rows.
pub open spec fn col_width(runs: Seq<Run>, c: int, n: nat) -> nat
    decreases n,
{
    if n == 0 {
        headers()[c].len()
    } else {
        let w = col_width(runs, c, (n - 1) as nat);
        let l = row_cells(runs[n - 1])[c].len();
        if l > w {
            l
        } else {
            w
        }
    }
}

/// `s` padded with spaces to `w` characters.
pub open spec fn pad(s: Seq<char>, w: nat) -> Seq<char> {
    if s.len() >= w {
        s
    } else {
        s + Seq::new((w - s.len()) as nat, |i: int| ' ')
    }
}

/// A line of the table: the marker, then the cells padded to their columns'
/// widths and two spaces apart, with trailing space dropped.
pub open spec fn table_line(runs: Seq<Run>, marker: Seq<char>, cells: Seq<Seq<char>>) -> Seq<char> {
    trim_end_seq(
        marker + join_seq(
            Seq::new(4, |c: int| pad(cells[c], col_width(runs, c, runs.len()))),
            "  "@,
        ),
    )
}

/// The marker for a run: `* ` on the current run, two spaces otherwise.
pub open spec fn marker_for(r: Run, current: Option<Seq<char>>) -> Seq<char> {
    if current == Some(r.meta.slug@) {
        "* "@
    } else {
        "  "@
    }
}

/// The table: the heading line, then one line per run, each ending in a
/// line break.
pub open spec fn table_spec(runs: Seq<Run>, current: Option<Seq<char>>) -> Seq<char> {
    table_line(runs, "  "@, headers()) + "\n"@ + rows_spec(runs, current, runs.len())
}

/// The lines of the first `n` runs.
pub open spec fn rows_spec(runs: Seq<Run>, current: Option<Seq<char>>, n: nat) -> Seq<char>
    decreases n,
{
    if n == 0 {
        Seq::empty()
    } else {
        rows_spec(runs, current, (n - 1) as nat) + table_line(
            runs,
            marker_for(runs[n - 1], current),
            row_cells(runs[n - 1]),
        ) + "\n"@
    }
}

/// The drift lines of run `i`'s first `n` drift entries.
pub open spec fn run_drift_lines(slug: Seq<char>, d: Seq<(Seq<char>, Seq<char>)>, n: nat) -> Seq<
    char,
>
    decreases n,
{
    if n == 0 {
        Seq::empty()
    } else {
        run_drift_lines(slug, d, (n - 1) as nat) + "  ! "@ + slug + " — "@ + d[n - 1].0 + ": "@ + d[n
            - 1].1 + "\n"@
    }
}

/// The drift lines of the first `n` runs, run by run.
pub open spec fn drift_lines(runs: Seq<Run>, drifts: Seq<Vec<Drift>>, n: nat) -> Seq<char>
    decreases n,
{
    if n == 0 {
        Seq::empty()
    } else {
        drift_lines(runs, drifts, (n - 1) as nat) + run_drift_lines(
            runs[n - 1].meta.slug@,
            crate::html::drift_of(drifts, n - 1),
            crate::html::drift_of(drifts, n - 1).len(),
        )
    }
}

/// What `flow status` prints for `runs` (the visible ones, `all` saying
/// whether finished runs were kept), with the drift `drifts` holds for each
/// at the same position and `current` the run bare commands act on.
pub open spec fn status_spec(
    runs: Seq<Run>,
    drifts: Seq<Vec<Drift>>,
    current: Option<Seq<char>>,
    all: bool,
) -> Seq<char> {
    if runs.len() == 0 {
        "no "@ + (if all {
            ""@
        } else {
            "active "@
        }) + "runs yet — start one with `flow start \"<title>\"`\n"@
    } else {
        let lines = drift_lines(runs, drifts, runs.len());
        table_spec(runs, current) + if lines.len() == 0 {
            Seq::<char>::empty()
        } else {
            "\ndrift:\n"@ + lines
        }
    }
}

/// The stage column of a run's row.
fn stage_cell_of(r: &Run) -> (s: String)
    ensures
        s@ == stage_cell(*r),
{
    if r.is_finished() {
        return owned("finished");
    }
    proof {
        crate::run::lemma_current_props(r.meta.stages@);
    }
    match r.current_stage_name() {
        Some(n) => owned(n),
        None => owned("—"),
    }
}

/// The cells of a run's row.
fn cells_of(r: &Run) -> (c: Vec<String>)
    ensures
        views(c@) == row_cells(*r),
        c@.len() == 4,
{
    reveal(row_cells);
    let mut c: Vec<String> = Vec::new();
    c.push(r.meta.slug.clone());
    if r.meta.kind.as_str().is_empty() {
        c.push(owned("—"));
    } else {
        c.push(r.meta.kind.clone());
    }
    c.push(stage_cell_of(r));
    let (done, total) = r.progress();
    let mut p = crate::text::decimal_string(done);
    push_str(&mut p, "/");
    let t = crate::text::decimal_string(total);
    push_str(&mut p, t.as_str());
    c.push(p);
    assert(views(c@) =~= row_cells(*r));
    c
}

proof fn lemma_row_len(r: Run)
    ensures
        row_cells(r).len() == 4,
{
    reveal(row_cells);
}

/// The number of characters in `s`.
fn char_count(s: &str) -> (n: usize)
    ensures
        n == s@.len(),
{
    let v = crate::text::chars_of(s);
    v.len()
}

/// The headings.
fn heading_cells() -> (c: Vec<String>)
    ensures
        views(c@) == headers(),
        c@.len() == 4,
{
    let mut c: Vec<String> = Vec::new();
    c.push(owned("RUN"));
    c.push(owned("KIND"));
    c.push(owned("STAGE"));
    c.push(owned("DONE"));
    assert(views(c@) =~= headers());
    c
}

/// `s` padded with spaces to `w` characters.
pub fn padded(s: &str, w: usize) -> (r: String)
    ensures
        r@ == pad(s@, w as nat),
{
    let mut r = owned(s);
    let mut n = char_count(s);
    if n >= w {
        return r;
    }
    let ghost l = s@.len();
    while n < w
        invariant
            l == s@.len(),
            l <= n <= w,
            r@ == s@ + Seq::new((n - l) as nat, |i: int| ' '),
        decreases w - n,
    {
        crate::text::push_char(&mut r, ' ');
        n = n + 1;
        assert(r@ =~= s@ + Seq::new((n - l) as nat, |i: int| ' '));
    }
    r
}

/// One line of the table.
fn line_of(runs: &Vec<Run>, widths: &Vec<usize>, marker: &str, cells: &Vec<String>) -> (r: String)
    requires
        widths@.len() == 4,
        cells@.len() == 4,
        forall|c: int| 0 <= c < 4 ==> widths@[c] == col_width(runs@, c, runs@.len()),
    ensures
        r@ == table_line(runs@, marker@, views(cells@)),
{
    let mut parts: Vec<String> = Vec::new();
    let mut c: usize = 0;
    while c < 4
        invariant
            c <= 4,
            widths@.len() == 4,
            cells@.len() == 4,
            forall|k: int| 0 <= k < 4 ==> widths@[k] == col_width(runs@, k, runs@.len()),
            parts@.len() == c,
            forall|k: int|
                0 <= k < c ==> (#[trigger] parts@[k])@ == pad(
                    cells@[k]@,
                    col_width(runs@, k, runs@.len()),
                ),
        decreases 4 - c,
    {
        parts.push(padded(cells[c].as_str(), widths[c]));
        c = c + 1;
    }
    assert(views(parts@) =~= Seq::new(
        4,
        |k: int| pad(views(cells@)[k], col_width(runs@, k, runs@.len())),
    ));
    let mut line = owned(marker);
    let joined = crate::text::join(&parts, "  ");
    push_str(&mut line, joined.as_str());
    crate::text::trim_end(line.as_str())
}

/// The width of every column.
fn widths_of(runs: &Vec<Run>, rows: &Vec<Vec<String>>) -> (w: Vec<usize>)
    requires
        rows@.len() == runs@.len(),
        forall|i: int| 0 <= i < rows@.len() ==> views(#[trigger] rows@[i]@) == row_cells(runs@[i]),
    ensures
        w@.len() == 4,
        forall|c: int| 0 <= c < 4 ==> w@[c] == col_width(runs@, c, runs@.len()),
{
    let heads = heading_cells();
    let mut w: Vec<usize> = Vec::new();
    let mut c: usize = 0;
    while c < 4
        invariant
            c <= 4,
            views(heads@) == headers(),
            heads@.len() == 4,
            rows@.len() == runs@.len(),
            forall|i: int| 0 <= i < rows@.len() ==> views(#[trigger] rows@[i]@) == row_cells(runs@[i]),
            w@.len() == c,
            forall|k: int| 0 <= k < c ==> w@[k] == col_width(runs@, k, runs@.len()),
        decreases 4 - c,
    {
        assert(views(heads@)[c as int] == heads@[c as int]@);
        let mut m = char_count(heads[c].as_str());
        let mut i: usize = 0;
        while i < rows.len()
            invariant
                c < 4,
                i <= rows@.len(),
                rows@.len() == runs@.len(),
                views(heads@) == headers(),
                forall|i: int| 0 <= i < rows@.len() ==> views(#[trigger] rows@[i]@) == row_cells(runs@[i]),
                m == col_width(runs@, c as int, i as nat),
            decreases rows.len() - i,
        {
            assert(rows@[i as int]@.len() == 4) by {
                lemma_row_len(runs@[i as int]);
                assert(views(rows@[i as int]@).len() == row_cells(runs@[i as int]).len());
            }
            assert(views(rows@[i as int]@)[c as int] == rows@[i as int]@[c as int]@);
            let l = char_count(rows[i][c].as_str());
            if l > m {
                m = l;
            }
            i = i + 1;
        }
        w.push(m);
        c = c + 1;
    }
    w
}

/// The drift lines of every run.
fn drift_section(runs: &Vec<Run>, drifts: &Vec<Vec<Drift>>) -> (r: String)
    ensures
        r@ == drift_lines(runs@, drifts@, runs@.len()),
{
    let mut r = String::new();
    let mut i: usize = 0;
    while i < runs.len()
        invariant
            i <= runs@.len(),
            r@ == drift_lines(runs@, drifts@, i as nat),
        decreases runs.len() - i,
    {
        if i < drifts.len() {
            let d = &drifts[i];
            let ghost dv = drift_view(d@);
            let ghost before = r@;
            let mut j: usize = 0;
            while j < d.len()
                invariant
                    i < drifts@.len(),
                    i < runs@.len(),
                    d == &drifts@[i as int],
                    dv == drift_view(d@),
                    j <= d@.len(),
                    r@ == before + run_drift_lines(runs@[i as int].meta.slug@, dv, j as nat),
                decreases d.len() - j,
            {
                push_str(&mut r, "  ! ");
                push_str(&mut r, runs[i].meta.slug.as_str());
                push_str(&mut r, " — ");
                push_str(&mut r, d[j].stage.as_str());
                push_str(&mut r, ": ");
                push_str(&mut r, d[j].message.as_str());
                push_str(&mut r, "\n");
                j = j + 1;
                assert(r@ =~= before + run_drift_lines(runs@[i as int].meta.slug@, dv, j as nat));
            }
        } else {
            assert(crate::html::drift_of(drifts@, i as int) =~= Seq::<(Seq<char>, Seq<char>)>::empty());
        }
        i = i + 1;
    }
    r
}

/// What `flow status` prints: the table of `runs` (the visible ones; `all`
/// says whether finished ones were kept), the current run marked, then the
/// drift `drifts` holds for each run at the same position.
pub fn status(runs: &Vec<Run>, drifts: &Vec<Vec<Drift>>, current: Option<&str>, all: bool) -> (r:
    String)
    ensures
        r@ == status_spec(runs@, drifts@, crate::flow::opt_view(current), all),
{
    if runs.len() == 0 {
        let mut r = owned("no ");
        if !all {
            push_str(&mut r, "active ");
        }
        push_str(&mut r, "runs yet — start one with `flow start \"<title>\"`\n");
        proof {
            reveal_strlit("");
        }
        assert(r@ =~= status_spec(runs@, drifts@, crate::flow::opt_view(current), all));
        return r;
    }
    let mut rows: Vec<Vec<String>> = Vec::new();
    let mut i: usize = 0;
    while i < runs.len()
        invariant
            i <= runs@.len(),
            rows@.len() == i,
            forall|k: int| 0 <= k < i ==> views(#[trigger] rows@[k]@) == row_cells(runs@[k]),
        decreases runs.len() - i,
    {
        rows.push(cells_of(&runs[i]));
        i = i + 1;
    }
    let widths = widths_of(runs, &rows);
    let heads = heading_cells();
    let mut out = line_of(runs, &widths, "  ", &heads);
    push_str(&mut out, "\n");
    let ghost head = out@;
    let mut k: usize = 0;
    while k < runs.len()
        invariant
            k <= runs@.len(),
            rows@.len() == runs@.len(),
            forall|k: int| 0 <= k < rows@.len() ==> views(#[trigger] rows@[k]@) == row_cells(runs@[k]),
            widths@.len() == 4,
            forall|c: int| 0 <= c < 4 ==> widths@[c] == col_width(runs@, c, runs@.len()),
            out@ == head + rows_spec(runs@, crate::flow::opt_view(current), k as nat),
        decreases runs.len() - k,
    {
        let is_current = match current {
            Some(c) => crate::text::str_eq(c, runs[k].meta.slug.as_str()),
            None => false,
        };
        let marker: &str = if is_current {
            "* "
        } else {
            "  "
        };
        assert(rows@[k as int]@.len() == 4) by {
            lemma_row_len(runs@[k as int]);
            assert(views(rows@[k as int]@).len() == 4);
        }
        let line = line_of(runs, &widths, marker, &rows[k]);
        push_str(&mut out, line.as_str());
        push_str(&mut out, "\n");
        k = k + 1;
        assert(out@ =~= head + rows_spec(runs@, crate::flow::opt_view(current), k as nat));
    }
    let lines = drift_section(runs, drifts);
    if !lines.as_str().is_empty() {
        push_str(&mut out, "\ndrift:\n");
        push_str(&mut out, lines.as_str());
    } else {
        assert(out@ =~= out@ + Seq::<char>::empty());
    }
    out
}

} // verus!
