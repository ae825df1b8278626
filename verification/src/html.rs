//! The board as a standalone HTML page: one card per run, every piece of
//! run text escaped before it reaches the markup.
use crate::run::{current_spec, Drift, Run, RunStatus, StageStatus};
use crate::drift::drift_view;
use crate::text::{chars_of, decimal, join_seq, owned, push_str, trim, trim_seq, views};
use vstd::prelude::*;

verus! {

/// What one character becomes in HTML text or an attribute value.
pub open spec fn escape_char(c: char) -> Seq<char> {
    if c == '&' {
        "&amp;"@
    } else if c == '<' {
        "&lt;"@
    } else if c == '>' {
        "&gt;"@
    } else if c == '"' {
        "&quot;"@
    } else {
        seq![c]
    }
}

/// `s` with `&`, `<`, `>` and `"` written as entities, everything else kept.
pub open spec fn escape_spec(s: Seq<char>) -> Seq<char>
    decreases s.len(),
{
    if s.len() == 0 {
        Seq::empty()
    } else {
        escape_spec(s.drop_last()) + escape_char(s.last())
    }
}

/// Run text made safe to place in HTML.
pub fn escape(s: &str) -> (r: String)
    ensures
        r@ == escape_spec(s@),
{
    let v = chars_of(s);
    let mut out = String::new();
    let mut i: usize = 0;
    while i < v.len()
        invariant
            i <= v.len(),
            v@ == s@,
            out@ == escape_spec(v@.take(i as int)),
        decreases v.len() - i,
    {
        assert(v@.take(i + 1).drop_last() =~= v@.take(i as int));
        let c = v[i];
        if c == '&' {
            push_str(&mut out, "&amp;");
        } else if c == '<' {
            push_str(&mut out, "&lt;");
        } else if c == '>' {
            push_str(&mut out, "&gt;");
        } else if c == '"' {
            push_str(&mut out, "&quot;");
        } else {
            crate::text::push_char(&mut out, c);
        }
        i = i + 1;
    }
    assert(v@.take(i as int) =~= v@);
    out
}

/// The class of stage record `i` on a card.
pub open spec fn stage_class(run: Run, i: int) -> Seq<char> {
    let st = run.meta.stages@[i].status;
    if st == StageStatus::Done {
        "done"@
    } else if st == StageStatus::Skipped {
        "skipped"@
    } else if current_spec(run.meta.stages@) == Some(i) {
        "current"@
    } else {
        ""@
    }
}

/// The list item for stage record `i`.
pub open spec fn stage_item(run: Run, i: int) -> Seq<char> {
    "      <li class=\""@ + stage_class(run, i) + "\"><span class=\"dot\"></span><span class=\"name\">"@
        + escape_spec(run.meta.stages@[i].name@) + "</span></li>"@
}

/// The list items for every stage record.
pub open spec fn stage_items(run: Run) -> Seq<Seq<char>> {
    Seq::new(run.meta.stages@.len(), |i: int| stage_item(run, i))
}

/// One drift line on a card.
pub open spec fn drift_item(d: (Seq<char>, Seq<char>)) -> Seq<char> {
    escape_spec(d.0) + ": "@ + escape_spec(d.1)
}

/// The drift block of a card: nothing without drift.
pub open spec fn drift_html(d: Seq<(Seq<char>, Seq<char>)>) -> Seq<char> {
    if d.len() == 0 {
        Seq::empty()
    } else {
        "    <div class=\"drift\">"@ + join_seq(Seq::new(d.len(), |i: int| drift_item(d[i])), "<br>"@)
            + "</div>\n"@
    }
}

/// The handoff block of a card: nothing when the handoff is blank.
pub open spec fn handoff_html(handoff: Seq<char>) -> Seq<char> {
    if trim_seq(handoff).len() == 0 {
        Seq::empty()
    } else {
        "    <div class=\"handoff\">"@ + escape_spec(trim_seq(handoff)) + "</div>\n"@
    }
}

/// What a card shows as the run's kind: its kind, else its flow.
pub open spec fn card_kind(run: Run) -> Seq<char> {
    if run.meta.kind@.len() == 0 {
        run.meta.flow@
    } else {
        run.meta.kind@
    }
}

/// The card for `run`, with the drift `d` found on it.
pub open spec fn card_spec(run: Run, d: Seq<(Seq<char>, Seq<char>)>) -> Seq<char> {
    "  <article class=\"card\">\n    <div class=\"kind\">"@ + escape_spec(card_kind(run))
        + "</div>\n    <div class=\"title\">"@ + escape_spec(run.meta.title@)
        + "</div>\n    <div class=\"slug\">"@ + escape_spec(run.meta.slug@)
        + "</div>\n    <ol class=\"stages\">\n"@ + join_seq(stage_items(run), "\n"@)
        + "\n    </ol>\n"@ + drift_html(d) + handoff_html(run.handoff@) + "  </article>"@
}

/// The list items of a card, one per stage record.
fn stage_item_list(run: &Run) -> (r: Vec<String>)
    ensures
        views(r@) == stage_items(*run),
{
    let current = run.current_index();
    let mut r: Vec<String> = Vec::new();
    let mut i: usize = 0;
    while i < run.meta.stages.len()
        invariant
            i <= run.meta.stages@.len(),
            r@.len() == i,
            match current {
                Some(c) => current_spec(run.meta.stages@) == Some(c as int),
                None => current_spec(run.meta.stages@) is None,
            },
            forall|j: int| 0 <= j < i ==> (#[trigger] r@[j])@ == stage_item(*run, j),
        decreases run.meta.stages.len() - i,
    {
        let rec = &run.meta.stages[i];
        let class: &str = if rec.status == StageStatus::Done {
            "done"
        } else if rec.status == StageStatus::Skipped {
            "skipped"
        } else {
            match current {
                Some(c) => if c == i {
                    "current"
                } else {
                    ""
                },
                None => "",
            }
        };
        let mut item = owned("      <li class=\"");
        push_str(&mut item, class);
        push_str(&mut item, "\"><span class=\"dot\"></span><span class=\"name\">");
        let name = escape(rec.name.as_str());
        push_str(&mut item, name.as_str());
        push_str(&mut item, "</span></li>");
        assert(item@ == stage_item(*run, i as int));
        r.push(item);
        i = i + 1;
    }
    assert(views(r@) =~= stage_items(*run));
    r
}

/// The drift block of a card.
fn drift_block(drift: &Vec<Drift>) -> (r: String)
    ensures
        r@ == drift_html(drift_view(drift@)),
{
    if drift.len() == 0 {
        return String::new();
    }
    let ghost d = drift_view(drift@);
    let mut items: Vec<String> = Vec::new();
    let mut i: usize = 0;
    while i < drift.len()
        invariant
            i <= drift@.len(),
            d == drift_view(drift@),
            items@.len() == i,
            forall|j: int| 0 <= j < i ==> (#[trigger] items@[j])@ == drift_item(d[j]),
        decreases drift.len() - i,
    {
        let mut item = escape(drift[i].stage.as_str());
        push_str(&mut item, ": ");
        let m = escape(drift[i].message.as_str());
        push_str(&mut item, m.as_str());
        items.push(item);
        i = i + 1;
    }
    assert(views(items@) =~= Seq::new(d.len(), |i: int| drift_item(d[i])));
    let mut r = owned("    <div class=\"drift\">");
    let joined = crate::text::join(&items, "<br>");
    push_str(&mut r, joined.as_str());
    push_str(&mut r, "</div>\n");
    r
}

/// The card for one run: its kind, title and slug, its stages with the
/// current one marked, the drift `drift` found on it, and its handoff.
pub fn card(run: &Run, drift: &Vec<Drift>) -> (r: String)
    ensures
        r@ == card_spec(*run, drift_view(drift@)),
{
    let kind = if run.meta.kind.as_str().is_empty() {
        escape(run.meta.flow.as_str())
    } else {
        escape(run.meta.kind.as_str())
    };
    let items = stage_item_list(run);
    let stages = crate::text::join(&items, "\n");
    let drift_part = drift_block(drift);
    let h = trim(run.handoff.as_str());
    let handoff_part = if h.as_str().is_empty() {
        String::new()
    } else {
        let mut x = owned("    <div class=\"handoff\">");
        let e = escape(h.as_str());
        push_str(&mut x, e.as_str());
        push_str(&mut x, "</div>\n");
        x
    };
    let mut r = owned("  <article class=\"card\">\n    <div class=\"kind\">");
    push_str(&mut r, kind.as_str());
    push_str(&mut r, "</div>\n    <div class=\"title\">");
    let title = escape(run.meta.title.as_str());
    push_str(&mut r, title.as_str());
    push_str(&mut r, "</div>\n    <div class=\"slug\">");
    let slug = escape(run.meta.slug.as_str());
    push_str(&mut r, slug.as_str());
    push_str(&mut r, "</div>\n    <ol class=\"stages\">\n");
    push_str(&mut r, stages.as_str());
    push_str(&mut r, "\n    </ol>\n");
    push_str(&mut r, drift_part.as_str());
    push_str(&mut r, handoff_part.as_str());
    push_str(&mut r, "  </article>");
    r
}

/// The page every board is written into. `__TITLE__`, `__SUBTITLE__`,
/// `__BODY__` and `__GENERATED__` are filled in, in that order; the page
/// reaches for nothing outside itself and carries a light and a dark theme.
pub const BOARD_TEMPLATE: &'static str = "<!doctype html>
<html lang=\"en\">
<head>
<meta charset=\"utf-8\">
<meta name=\"viewport\" content=\"width=device-width, initial-scale=1\">
<title>__TITLE__ · flow</title>
<style>
:root {
  --bg: #fafaf9; --fg: #1c1917; --muted: #78716c; --card: #ffffff;
  --line: #e7e5e4; --done: #16a34a; --current: #2563eb; --skipped: #a8a29e;
  --drift: #dc2626;
}
@media (prefers-color-scheme: dark) {
  :root {
    --bg: #1c1917; --fg: #f5f5f4; --muted: #a8a29e; --card: #292524;
    --line: #44403c; --done: #4ade80; --current: #60a5fa; --skipped: #78716c;
    --drift: #f87171;
  }
}
body { margin: 0; padding: 2rem; background: var(--bg); color: var(--fg);
  font: 15px/1.45 system-ui, sans-serif; }
h1 { margin: 0 0 .25rem; font-size: 1.4rem; }
.subtitle { color: var(--muted); margin-bottom: 1.5rem; }
.grid { display: grid; gap: 1rem; grid-template-columns: repeat(auto-fill, minmax(18rem, 1fr)); }
.card { background: var(--card); border: 1px solid var(--line); border-radius: .6rem; padding: 1rem; }
.kind { color: var(--muted); font-size: .8rem; text-transform: uppercase; letter-spacing: .05em; }
.title { font-weight: 600; margin: .2rem 0; }
.slug { color: var(--muted); font-family: ui-monospace, monospace; font-size: .85rem; }
.stages { list-style: none; padding: 0; margin: .75rem 0; }
.stages li { display: flex; align-items: center; gap: .5rem; padding: .1rem 0; }
.dot { width: .6rem; height: .6rem; border-radius: 50%; border: 2px solid var(--line); }
.done .dot { background: var(--done); border-color: var(--done); }
.skipped .dot { background: var(--skipped); border-color: var(--skipped); }
.skipped .name { text-decoration: line-through; color: var(--muted); }
.current .dot { border-color: var(--current); }
.current .name { color: var(--current); font-weight: 600; }
.drift { color: var(--drift); font-size: .85rem; margin: .5rem 0; }
.handoff { white-space: pre-wrap; font-size: .85rem; border-top: 1px solid var(--line); padding-top: .5rem; }
.empty { color: var(--muted); }
footer { color: var(--muted); font-size: .8rem; margin-top: 2rem; }
</style>
</head>
<body>
<h1>__TITLE__</h1>
<div class=\"subtitle\">__SUBTITLE__</div>
__BODY__
<footer>Generated __GENERATED__ by flow.</footer>
</body>
</html>
";

/// What a board without runs says.
pub const EMPTY_BOARD: &'static str = "<p class=\"empty\">No runs yet. Start one with <code>flow start \"&lt;title&gt;\"</code>.</p>";

/// The drift found on run `i`: entry `i` of `drifts`, none when it is missing.
pub open spec fn drift_of(drifts: Seq<Vec<Drift>>, i: int) -> Seq<(Seq<char>, Seq<char>)> {
    if 0 <= i < drifts.len() {
        drift_view(drifts[i]@)
    } else {
        Seq::empty()
    }
}

/// The cards of the board, one per run.
pub open spec fn cards_spec(runs: Seq<Run>, drifts: Seq<Vec<Drift>>) -> Seq<Seq<char>> {
    Seq::new(runs.len(), |i: int| card_spec(runs[i], drift_of(drifts, i)))
}

/// The body of the board: the cards in a grid, or a line saying there are none.
pub open spec fn board_body_spec(runs: Seq<Run>, drifts: Seq<Vec<Drift>>) -> Seq<char> {
    if runs.len() == 0 {
        EMPTY_BOARD@
    } else {
        "<div class=\"grid\">\n"@ + join_seq(cards_spec(runs, drifts), "\n"@) + "\n</div>"@
    }
}

/// How many of the runs are still active.
pub open spec fn active_count(runs: Seq<Run>) -> nat
    decreases runs.len(),
{
    if runs.len() == 0 {
        0
    } else {
        active_count(runs.drop_last()) + if runs.last().meta.status == RunStatus::Finished {
            0nat
        } else {
            1nat
        }
    }
}

/// The line under the board's title: how many runs, which flow, how many active.
pub open spec fn subtitle_spec(flow_name: Seq<char>, runs: Seq<Run>) -> Seq<char> {
    decimal(runs.len()) + " run"@ + (if runs.len() == 1 {
        ""@
    } else {
        "s"@
    }) + " · flow <code>"@ + escape_spec(flow_name) + "</code> · "@ + decimal(active_count(runs))
        + " active"@
}

/// The whole page.
pub open spec fn board_spec(
    title: Seq<char>,
    flow_name: Seq<char>,
    runs: Seq<Run>,
    drifts: Seq<Vec<Drift>>,
    generated: Seq<char>,
) -> Seq<char> {
    let t1 = crate::text::replace_seq(BOARD_TEMPLATE@, "__TITLE__"@, escape_spec(title));
    let t2 = crate::text::replace_seq(t1, "__SUBTITLE__"@, subtitle_spec(flow_name, runs));
    let t3 = crate::text::replace_seq(t2, "__BODY__"@, board_body_spec(runs, drifts));
    crate::text::replace_seq(t3, "__GENERATED__"@, generated)
}

/// The board's body.
fn board_body(runs: &Vec<Run>, drifts: &Vec<Vec<Drift>>) -> (r: String)
    ensures
        r@ == board_body_spec(runs@, drifts@),
{
    if runs.len() == 0 {
        return owned(EMPTY_BOARD);
    }
    let mut cards: Vec<String> = Vec::new();
    let mut i: usize = 0;
    while i < runs.len()
        invariant
            i <= runs@.len(),
            cards@.len() == i,
            forall|j: int| 0 <= j < i ==> (#[trigger] cards@[j])@ == cards_spec(runs@, drifts@)[j],
        decreases runs.len() - i,
    {
        let c = if i < drifts.len() {
            card(&runs[i], &drifts[i])
        } else {
            let none: Vec<Drift> = Vec::new();
            assert(drift_view(none@) =~= Seq::<(Seq<char>, Seq<char>)>::empty());
            card(&runs[i], &none)
        };
        cards.push(c);
        i = i + 1;
    }
    assert(views(cards@) =~= cards_spec(runs@, drifts@));
    let joined = crate::text::join(&cards, "\n");
    let mut r = owned("<div class=\"grid\">\n");
    push_str(&mut r, joined.as_str());
    push_str(&mut r, "\n</div>");
    r
}

/// How many of the runs are still active.
fn count_active(runs: &Vec<Run>) -> (n: usize)
    ensures
        n == active_count(runs@),
{
    let mut n: usize = 0;
    let mut i: usize = 0;
    while i < runs.len()
        invariant
            i <= runs@.len(),
            n == active_count(runs@.take(i as int)),
            n <= i,
        decreases runs.len() - i,
    {
        assert(runs@.take(i + 1).drop_last() =~= runs@.take(i as int));
        if !runs[i].is_finished() {
            n = n + 1;
        }
        i = i + 1;
    }
    assert(runs@.take(i as int) =~= runs@);
    n
}

/// The line under the board's title.
fn subtitle(flow_name: &str, runs: &Vec<Run>) -> (r: String)
    ensures
        r@ == subtitle_spec(flow_name@, runs@),
{
    let mut r = crate::text::decimal_string(runs.len());
    push_str(&mut r, " run");
    if runs.len() != 1 {
        push_str(&mut r, "s");
    }
    push_str(&mut r, " · flow <code>");
    let name = escape(flow_name);
    push_str(&mut r, name.as_str());
    push_str(&mut r, "</code> · ");
    let active = crate::text::decimal_string(count_active(runs));
    push_str(&mut r, active.as_str());
    push_str(&mut r, " active");
    proof {
        if runs@.len() == 1 {
            reveal_strlit("");
            assert(r@ =~= subtitle_spec(flow_name@, runs@));
        } else {
            assert(r@ =~= subtitle_spec(flow_name@, runs@));
        }
    }
    r
}

/// The board as one standalone page: titled `title`, for runs of the flow
/// called `flow_name`, each with the drift `drifts` holds for it at the same
/// position, stamped `generated`.
pub fn board(
    title: &str,
    flow_name: &str,
    runs: &Vec<Run>,
    drifts: &Vec<Vec<Drift>>,
    generated: &str,
) -> (r: String)
    ensures
        r@ == board_spec(title@, flow_name@, runs@, drifts@, generated@),
{
    proof {
        reveal_strlit("__TITLE__");
        reveal_strlit("__SUBTITLE__");
        reveal_strlit("__BODY__");
        reveal_strlit("__GENERATED__");
    }
    let t = escape(title);
    let t1 = crate::text::replace(BOARD_TEMPLATE, "__TITLE__", t.as_str());
    let sub = subtitle(flow_name, runs);
    let t2 = crate::text::replace(t1.as_str(), "__SUBTITLE__", sub.as_str());
    let body = board_body(runs, drifts);
    let t3 = crate::text::replace(t2.as_str(), "__BODY__", body.as_str());
    crate::text::replace(t3.as_str(), "__GENERATED__", generated)
}

/// The board's title: the name of the repo's directory, else `flow`.
pub fn title_for(dir_name: Option<&str>) -> (r: String)
    ensures
        r@ == match dir_name {
            Some(n) => n@,
            None => "flow"@,
        },
{
    match dir_name {
        Some(n) => owned(n),
        None => owned("flow"),
    }
}

} // verus!
