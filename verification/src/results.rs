//! What is made of the outcomes of a run: the JSON document, the report, and
//! the exit status.

use crate::json::{
    entries_of, json_list, json_list_of, json_null, json_number, json_object, json_of, json_pretty,
    json_single, json_text, json_texts, object, pretty_text, single, text_list, JsonView,
};
use crate::number::decimal;
use crate::report::{
    format_of, render, rendered, report_views, section_views, Format, TargetReport,
    TargetReportView,
};
use crate::scan::{ResultView, TargetResult};
use crate::section::{Section, SectionView};
use serde_json::Value;
use vstd::prelude::*;
use vstd::string::*;

verus! {

/// The views of some outcomes.
pub open spec fn result_views(v: Seq<TargetResult>) -> Seq<ResultView> {
    Seq::new(v.len(), |i: int| v[i]@)
}

// ---------------------------------------------------------------------------
// JSON
// ---------------------------------------------------------------------------

/// A section as JSON.
pub open spec fn section_json(s: SectionView) -> JsonView {
    JsonView::Object(
        object(seq![("title"@, JsonView::Text(s.title)), ("lines"@, text_list(s.lines))]),
    )
}

/// Some sections as JSON.
pub open spec fn sections_json(ss: Seq<SectionView>) -> JsonView {
    JsonView::List(Seq::new(ss.len(), |i: int| section_json(ss[i])))
}

/// A status as JSON.
pub open spec fn status_json(status: Option<u16>) -> JsonView {
    match status {
        Some(n) => JsonView::Number(decimal(n as nat)),
        None => JsonView::Null,
    }
}

/// An outcome as JSON.
pub open spec fn result_json(r: ResultView) -> JsonView {
    JsonView::Object(
        object(
            seq![
                ("target"@, JsonView::Text(r.url)),
                ("host"@, JsonView::Text(r.host)),
                ("status"@, status_json(r.status)),
                ("sections"@, sections_json(r.sections)),
            ],
        ),
    )
}

/// The document for a run: the outcome itself if there is one, or else the list
/// of outcomes.
pub open spec fn document(rs: Seq<ResultView>) -> JsonView {
    if rs.len() == 1 {
        result_json(rs[0])
    } else {
        single("targets"@, JsonView::List(Seq::new(rs.len(), |i: int| result_json(rs[i]))))
    }
}

fn section_value(s: &Section) -> (r: Value)
    ensures
        json_of(r) == section_json(s@),
{
    proof {
        reveal_strlit("title");
        reveal_strlit("lines");
        assert("title"@[0] == 't' && "lines"@[0] == 'l');
    }
    let mut e: Vec<(String, Value)> = Vec::new();
    e.push(("title".to_owned(), json_text(s.title.as_str())));
    e.push(("lines".to_owned(), json_texts(&s.lines)));
    assert(entries_of(e@) =~= seq![
        ("title"@, JsonView::Text(s@.title)),
        ("lines"@, text_list(s@.lines)),
    ]);
    json_object(e)
}

fn sections_value(ss: &Vec<Section>) -> (r: Value)
    ensures
        json_of(r) == sections_json(section_views(ss@)),
{
    let mut out: Vec<Value> = Vec::new();
    let mut i: usize = 0;
    while i < ss.len()
        invariant
            i <= ss@.len(),
            out@.len() == i,
            forall|j: int| 0 <= j < i ==> json_of(#[trigger] out@[j]) == section_json(ss@[j]@),
        decreases ss@.len() - i,
    {
        out.push(section_value(&ss[i]));
        i += 1;
    }
    let ghost sv = section_views(ss@);
    assert(json_list_of(out@) =~= Seq::new(sv.len(), |j: int| section_json(sv[j])));
    json_list(out)
}

proof fn lemma_keys_differ()
    ensures
        "target"@ != "host"@ && "target"@ != "status"@ && "target"@ != "sections"@,
        "host"@ != "status"@ && "host"@ != "sections"@ && "status"@ != "sections"@,
{
    reveal_strlit("target");
    reveal_strlit("host");
    reveal_strlit("status");
    reveal_strlit("sections");
    assert("target"@[0] == 't' && "host"@[0] == 'h' && "status"@[1] == 't' && "sections"@[1]
        == 'e');
}

fn result_value(t: &TargetResult) -> (r: Value)
    ensures
        json_of(r) == result_json(t@),
{
    let status = match t.status {
        Some(n) => json_number(n as u64),
        None => json_null(),
    };
    proof {
        lemma_keys_differ();
    }
    let mut e: Vec<(String, Value)> = Vec::new();
    e.push(("target".to_owned(), json_text(t.url.as_str())));
    e.push(("host".to_owned(), json_text(t.host.as_str())));
    e.push(("status".to_owned(), status));
    e.push(("sections".to_owned(), sections_value(&t.sections)));
    assert(entries_of(e@) =~= seq![
        ("target"@, JsonView::Text(t@.url)),
        ("host"@, JsonView::Text(t@.host)),
        ("status"@, status_json(t@.status)),
        ("sections"@, sections_json(t@.sections)),
    ]);
    json_object(e)
}

/// Builds the JSON document for a run.
pub fn json_document(results: &Vec<TargetResult>) -> (r: Value)
    ensures
        json_of(r) == document(result_views(results@)),
{
    if results.len() == 1 {
        return result_value(&results[0]);
    }
    let mut out: Vec<Value> = Vec::new();
    let mut i: usize = 0;
    while i < results.len()
        invariant
            i <= results@.len(),
            out@.len() == i,
            forall|j: int| 0 <= j < i ==> json_of(#[trigger] out@[j]) == result_json(results@[j]@),
        decreases results@.len() - i,
    {
        out.push(result_value(&results[i]));
        i += 1;
    }
    let ghost rv = result_views(results@);
    assert(json_list_of(out@) =~= Seq::new(rv.len(), |j: int| result_json(rv[j])));
    json_single("targets", json_list(out))
}

/// Writes the JSON document for a run.
pub fn emit_json(results: &Vec<TargetResult>) -> (r: String)
    ensures
        r@ == pretty_text(document(result_views(results@))),
{
    let d = json_document(results);
    json_pretty(&d)
}

// ---------------------------------------------------------------------------
// The report
// ---------------------------------------------------------------------------

/// The part of a report on an outcome.
pub open spec fn report_of(r: ResultView) -> TargetReportView {
    TargetReportView { target: r.url, host: r.host, status: r.status, sections: r.sections }
}

/// The parts of a report.
pub open spec fn reports_of(rs: Seq<ResultView>) -> Seq<TargetReportView> {
    Seq::new(rs.len(), |i: int| report_of(rs[i]))
}

/// The text of the report that belongs into a file: its format is inferred from
/// the extension.
pub open spec fn report_text(path: Seq<char>, rs: Seq<ResultView>) -> Seq<char> {
    rendered(format_of(path), reports_of(rs))
}

/// Writes the report that belongs into a file.
pub fn write_report(path: &str, results: &Vec<TargetResult>) -> (r: String)
    ensures
        r@ == report_text(path@, result_views(results@)),
{
    let mut parts: Vec<TargetReport> = Vec::new();
    let mut i: usize = 0;
    while i < results.len()
        invariant
            i <= results@.len(),
            parts@.len() == i,
            forall|j: int| 0 <= j < i ==> (#[trigger] parts@[j])@ == report_of(results@[j]@),
        decreases results@.len() - i,
    {
        let t = &results[i];
        parts.push(
            TargetReport {
                target: t.url.as_str(),
                host: t.host.as_str(),
                status: t.status,
                sections: t.sections.as_slice(),
            },
        );
        i += 1;
    }
    assert(report_views(parts@) =~= reports_of(result_views(results@)));
    let format = Format::from_path(path);
    render(&format, parts.as_slice())
}

// ---------------------------------------------------------------------------
// The exit status
// ---------------------------------------------------------------------------

/// The exit status of a run: with a single target, a failed fetch exits 2.
pub open spec fn exit_status(rs: Seq<ResultView>) -> i32 {
    if rs.len() == 1 && rs[0].fetch_failed {
        2
    } else {
        0
    }
}

/// The exit status of a run.
pub fn exit_code(results: &Vec<TargetResult>) -> (r: i32)
    ensures
        r == exit_status(result_views(results@)),
{
    if results.len() == 1 && results[0].fetch_failed {
        2
    } else {
        0
    }
}

// ---------------------------------------------------------------------------
// Laws
// ---------------------------------------------------------------------------

/// The JSON of an outcome tells its target, host, status and sections.
pub proof fn law_json_tells_everything(r: ResultView)
    ensures
        result_json(r) is Object,
        result_json(r)->Object_0["target"@] == JsonView::Text(r.url),
        result_json(r)->Object_0["host"@] == JsonView::Text(r.host),
        result_json(r)->Object_0["status"@] == status_json(r.status),
        result_json(r)->Object_0["sections"@] == sections_json(r.sections),
{
    lemma_keys_differ();
    reveal_with_fuel(object, 5);
}

/// The JSON of a section tells its title and all its lines, in order.
pub proof fn law_json_tells_every_line(r: ResultView, i: int, j: int)
    requires
        0 <= i < r.sections.len(),
        0 <= j < r.sections[i].lines.len(),
    ensures
        ({
            let all = result_json(r)->Object_0["sections"@];
            let s = all->List_0[i];
            let ls = s->Object_0["lines"@];
            &&& all is List
            &&& all->List_0.len() == r.sections.len()
            &&& s is Object
            &&& s->Object_0["title"@] == JsonView::Text(r.sections[i].title)
            &&& ls is List
            &&& ls->List_0.len() == r.sections[i].lines.len()
            &&& ls->List_0[j] == JsonView::Text(r.sections[i].lines[j])
        }),
{
    law_json_tells_everything(r);
    reveal_strlit("title");
    reveal_strlit("lines");
    assert("title"@[0] == 't' && "lines"@[0] == 'l');
    reveal_with_fuel(object, 3);
}

/// A single outcome is the document itself; any other number of them stands, in
/// order, in a list under `targets`. A status is a number, or null if there is
/// none.
pub proof fn law_documents_hold_every_outcome(rs: Seq<ResultView>, i: int)
    requires
        0 <= i < rs.len(),
    ensures
        rs.len() == 1 ==> document(rs) == result_json(rs[0]),
        rs.len() != 1 ==> document(rs) is Object && document(rs)->Object_0["targets"@] is List
            && document(rs)->Object_0["targets"@]->List_0.len() == rs.len()
            && document(rs)->Object_0["targets"@]->List_0[i] == result_json(rs[i]),
        rs[i].status is Some ==> status_json(rs[i].status) == JsonView::Number(
            decimal(rs[i].status->0 as nat),
        ),
        rs[i].status is None ==> status_json(rs[i].status) is Null,
{
    reveal_with_fuel(object, 2);
}

/// A report speaks of every outcome, in order, with its target, host, status and
/// sections, in the format that the path asks for.
pub proof fn law_reports_speak_of_every_outcome(path: Seq<char>, rs: Seq<ResultView>, i: int)
    requires
        0 <= i < rs.len(),
    ensures
        reports_of(rs).len() == rs.len(),
        reports_of(rs)[i].target == rs[i].url,
        reports_of(rs)[i].host == rs[i].host,
        reports_of(rs)[i].status == rs[i].status,
        reports_of(rs)[i].sections == rs[i].sections,
        report_text(path, rs) == rendered(format_of(path), reports_of(rs)),
{
}

/// A run fails exactly when it had one target and that could not be fetched.
pub proof fn law_only_a_single_failure_fails(rs: Seq<ResultView>)
    ensures
        rs.len() == 1 && rs[0].fetch_failed ==> exit_status(rs) == 2,
        rs.len() != 1 ==> exit_status(rs) == 0,
        rs.len() == 1 && !rs[0].fetch_failed ==> exit_status(rs) == 0,
{
}

} // verus!
