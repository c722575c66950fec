//! Findings as a SARIF 2.1.0 document.

use vstd::prelude::*;

use serde_json::Value;

use crate::finding::{Finding, FindingView, Noted, NotedView, Severity};
use crate::path_order;
use crate::report;
use crate::text;

verus! {

broadcast use crate::text::group_views;

// ── JSON values ──────────────────────────────────────────────────────────────

/// `serde_json::Value`: a JSON value.
#[verifier::external_type_specification]
#[verifier::external_body]
pub struct ExValue(serde_json::Value);

/// `serde_json::Error`: why a value could not be written.
#[verifier::external_type_specification]
#[verifier::external_body]
pub struct ExJsonError(serde_json::Error);

/// A JSON value: a string, a whole number from zero on, an array or an object. Any
/// other value stands under the text that it is written with.
pub enum JsonView {
    Text(Seq<char>),
    Number(u64),
    List(Seq<JsonView>),
    Object(Map<Seq<char>, JsonView>),
    Other(Seq<char>),
}

/// What a JSON value holds.
pub uninterp spec fn json_contents(value: Value) -> JsonView;

/// What the items of an array hold.
pub open spec fn json_items(items: Seq<Value>) -> Seq<JsonView> {
    items.map_values(|v: Value| json_contents(v))
}

/// What the members of an object hold.
pub open spec fn json_members(members: Seq<(String, Value)>) -> Seq<(Seq<char>, JsonView)> {
    members.map_values(|m: (String, Value)| (m.0@, json_contents(m.1)))
}

/// The object with these members; the last one of a name counts.
pub open spec fn member_map(members: Seq<(Seq<char>, JsonView)>) -> Map<Seq<char>, JsonView>
    decreases members.len(),
{
    if members.len() == 0 {
        Map::empty()
    } else {
        member_map(members.drop_last()).insert(members.last().0, members.last().1)
    }
}

pub open spec fn object(members: Seq<(Seq<char>, JsonView)>) -> JsonView {
    JsonView::Object(member_map(members))
}

/// `Value::from` on a string slice: the JSON string with its characters.
#[verifier::external_body]
fn json_text(s: &str) -> (r: Value)
    ensures
        json_contents(r) == JsonView::Text(s@),
{
    Value::from(s)
}

/// `Value::from` on an integer: the JSON number of that value.
#[verifier::external_body]
fn json_number(n: u64) -> (r: Value)
    ensures
        json_contents(r) == JsonView::Number(n),
{
    Value::from(n)
}

/// `Value::from` on a vector: the JSON array of its items.
#[verifier::external_body]
fn json_list(items: Vec<Value>) -> (r: Value)
    ensures
        json_contents(r) == JsonView::List(json_items(items@)),
{
    Value::from(items)
}

/// `Map::from_iter` of serde_json, as an object: the members, the last one of a name
/// counting.
#[verifier::external_body]
fn json_object(members: Vec<(String, Value)>) -> (r: Value)
    ensures
        json_contents(r) == object(json_members(members@)),
{
    Value::Object(members.into_iter().collect())
}

/// How a JSON value is written over several lines; `None` where it cannot be written.
pub uninterp spec fn pretty_json(value: JsonView) -> Option<Seq<char>>;

/// `serde_json::to_string_pretty` on a JSON value: its text over several lines. The
/// layout is the outside crate's.
#[verifier::external_body]
pub(crate) fn json_to_text(value: &Value) -> (r: Result<String, serde_json::Error>)
    ensures
        match r {
            Ok(text) => pretty_json(json_contents(*value)) == Some(text@),
            Err(_) => pretty_json(json_contents(*value)) is None,
        },
{
    serde_json::to_string_pretty(value)
}

// ── The document ─────────────────────────────────────────────────────────────

/// The rules that a document can list, in alphabetical order.
pub open spec fn all_rules() -> Seq<Seq<char>> {
    seq![
        "address-not-a-register"@,
        "field-value-not-in-enum"@,
        "hal-call-funcsel-not-in-enum"@,
        "hal-call-index-out-of-range"@,
        "hal-call-instance-not-in-svd"@,
        "hal-call-pin-out-of-range"@,
        "nonexistent-register"@,
        "note"@,
        "value-exceeds-register-width"@,
        "value-sets-undefined-bits"@,
        "write-to-read-only-field"@,
        "write-to-read-only-register"@,
    ]
}

/// Whether a result of the document has the rule `id`.
pub open spec fn rule_used(id: Seq<char>, findings: Seq<FindingView>, notes: Seq<NotedView>) -> bool {
    ||| id == "note"@ && notes.len() > 0
    ||| exists|i: int| 0 <= i < findings.len() && (#[trigger] findings[i]).kind.rule_id() == id
}

/// Those of the first `n` rules that are used, each as an object with its id.
pub open spec fn rule_objects(n: nat, findings: Seq<FindingView>, notes: Seq<NotedView>) -> Seq<JsonView>
    decreases n,
{
    if n == 0 || n > all_rules().len() {
        Seq::empty()
    } else {
        let id = all_rules()[n - 1];
        let before = rule_objects((n - 1) as nat, findings, notes);
        if rule_used(id, findings, notes) {
            before.push(object(seq![("id"@, JsonView::Text(id))]))
        } else {
            before
        }
    }
}

/// The place of a result.
pub open spec fn sarif_locations(file: Seq<char>, line: usize) -> JsonView {
    JsonView::List(
        seq![
            object(
                seq![
                    (
                        "physicalLocation"@,
                        object(
                            seq![
                                ("artifactLocation"@, object(seq![("uri"@, JsonView::Text(file))])),
                                ("region"@, object(seq![("startLine"@, JsonView::Number(line as u64))])),
                            ],
                        ),
                    ),
                ],
            ),
        ],
    )
}

pub open spec fn sarif_message(message: Seq<char>) -> JsonView {
    object(seq![("text"@, JsonView::Text(message))])
}

/// A finding as a result.
pub open spec fn finding_result(f: FindingView) -> JsonView {
    object(
        seq![
            ("ruleId"@, JsonView::Text(f.kind.rule_id())),
            ("level"@, JsonView::Text(report::severity_name(f.severity))),
            ("message"@, sarif_message(f.kind.message())),
            ("locations"@, sarif_locations(f.file, f.line)),
        ],
    )
}

/// A note as a result.
pub open spec fn note_result(n: NotedView) -> JsonView {
    object(
        seq![
            ("ruleId"@, JsonView::Text("note"@)),
            ("kind"@, JsonView::Text("informational"@)),
            ("level"@, JsonView::Text("note"@)),
            ("message"@, sarif_message(n.note.message())),
            ("locations"@, sarif_locations(n.file, n.line)),
        ],
    )
}

/// One result for each finding, then one for each note.
pub open spec fn sarif_results(findings: Seq<FindingView>, notes: Seq<NotedView>) -> Seq<JsonView> {
    findings.map_values(|f: FindingView| finding_result(f)) + notes.map_values(|n: NotedView| note_result(n))
}

pub open spec fn sarif_tool(rules: Seq<JsonView>) -> JsonView {
    object(
        seq![
            (
                "driver"@,
                object(
                    seq![
                        ("name"@, JsonView::Text("silicon"@)),
                        ("version"@, JsonView::Text("0.1.0"@)),
                        ("rules"@, JsonView::List(rules)),
                    ],
                ),
            ),
        ],
    )
}

/// The SARIF document of one run.
pub open spec fn sarif_document(findings: Seq<FindingView>, notes: Seq<NotedView>) -> JsonView {
    let rules = rule_objects(all_rules().len(), findings, notes);
    object(
        seq![
            (
                "$schema"@,
                JsonView::Text(
                    "https://raw.githubusercontent.com/oasis-tcs/sarif-spec/master/Schemata/sarif-schema-2.1.0.json"@,
                ),
            ),
            ("version"@, JsonView::Text("2.1.0"@)),
            (
                "runs"@,
                JsonView::List(
                    seq![
                        object(
                            seq![
                                ("tool"@, sarif_tool(rules)),
                                ("results"@, JsonView::List(sarif_results(findings, notes))),
                            ],
                        ),
                    ],
                ),
            ),
        ],
    )
}

// ── Building it ──────────────────────────────────────────────────────────────

/// The object with one member.
fn object_of_one(name: &str, value: Value) -> (r: Value)
    ensures
        json_contents(r) == object(seq![(name@, json_contents(value))]),
{
    let mut members: Vec<(String, Value)> = Vec::new();
    members.push((name.to_owned(), value));
    assert(json_members(members@) =~= seq![(name@, json_contents(value))]);
    json_object(members)
}

fn locations(file: &str, line: usize) -> (r: Value)
    ensures
        json_contents(r) == sarif_locations(file@, line),
{
    let artifact = object_of_one("uri", json_text(file));
    let region = object_of_one("startLine", json_number(line as u64));
    let mut members: Vec<(String, Value)> = Vec::new();
    members.push(("artifactLocation".to_owned(), artifact));
    members.push(("region".to_owned(), region));
    assert(json_members(members@) =~= seq![
        ("artifactLocation"@, json_contents(artifact)),
        ("region"@, json_contents(region)),
    ]);
    let location = object_of_one("physicalLocation", json_object(members));
    let mut items: Vec<Value> = Vec::new();
    items.push(location);
    assert(json_items(items@) =~= seq![json_contents(location)]);
    json_list(items)
}

fn finding_object(f: &Finding) -> (r: Value)
    ensures
        json_contents(r) == finding_result(f@),
{
    let level = match f.severity {
        Severity::Error => "error",
        Severity::Warning => "warning",
    };
    let message = object_of_one("text", json_text(f.kind.to_string().as_str()));
    let mut members: Vec<(String, Value)> = Vec::new();
    members.push(("ruleId".to_owned(), json_text(f.kind.rule_id())));
    members.push(("level".to_owned(), json_text(level)));
    members.push(("message".to_owned(), message));
    members.push(("locations".to_owned(), locations(f.file.as_str(), f.line)));
    assert(json_members(members@) =~= seq![
        ("ruleId"@, JsonView::Text(f@.kind.rule_id())),
        ("level"@, JsonView::Text(report::severity_name(f@.severity))),
        ("message"@, sarif_message(f@.kind.message())),
        ("locations"@, sarif_locations(f@.file, f@.line)),
    ]);
    json_object(members)
}

fn note_object(n: &Noted) -> (r: Value)
    ensures
        json_contents(r) == note_result(n@),
{
    let message = object_of_one("text", json_text(n.note.to_string().as_str()));
    let mut members: Vec<(String, Value)> = Vec::new();
    members.push(("ruleId".to_owned(), json_text("note")));
    members.push(("kind".to_owned(), json_text("informational")));
    members.push(("level".to_owned(), json_text("note")));
    members.push(("message".to_owned(), message));
    members.push(("locations".to_owned(), locations(n.file.as_str(), n.line)));
    assert(json_members(members@) =~= seq![
        ("ruleId"@, JsonView::Text("note"@)),
        ("kind"@, JsonView::Text("informational"@)),
        ("level"@, JsonView::Text("note"@)),
        ("message"@, sarif_message(n@.note.message())),
        ("locations"@, sarif_locations(n@.file, n@.line)),
    ]);
    json_object(members)
}

fn is_rule_used(id: &str, findings: &[Finding], notes: &[Noted]) -> (r: bool)
    ensures
        r == rule_used(id@, text::views(findings@), text::views(notes@)),
{
    let ghost all = text::views(findings@);
    if notes.len() > 0 && text::same_text(id, "note") {
        return true;
    }
    let mut i: usize = 0;
    while i < findings.len()
        invariant
            i <= findings@.len(),
            all == text::views(findings@),
            forall|j: int| 0 <= j < i ==> (#[trigger] all[j]).kind.rule_id() != id@,
        decreases findings.len() - i,
    {
        assert(all[i as int] == findings@[i as int]@);
        if text::same_text(findings[i].kind.rule_id(), id) {
            return true;
        }
        i += 1;
    }
    false
}

fn rules(findings: &[Finding], notes: &[Noted]) -> (r: Vec<Value>)
    ensures
        json_items(r@) == rule_objects(all_rules().len(), text::views(findings@), text::views(notes@)),
{
    let ids: [&str; 12] = [
        "address-not-a-register",
        "field-value-not-in-enum",
        "hal-call-funcsel-not-in-enum",
        "hal-call-index-out-of-range",
        "hal-call-instance-not-in-svd",
        "hal-call-pin-out-of-range",
        "nonexistent-register",
        "note",
        "value-exceeds-register-width",
        "value-sets-undefined-bits",
        "write-to-read-only-field",
        "write-to-read-only-register",
    ];
    let mut out: Vec<Value> = Vec::new();
    let mut i: usize = 0;
    assert(json_items(out@) =~= Seq::<JsonView>::empty());
    while i < 12
        invariant
            i <= 12,
            forall|j: int| 0 <= j < 12 ==> #[trigger] ids@[j]@ == all_rules()[j],
            json_items(out@) == rule_objects(i as nat, text::views(findings@), text::views(notes@)),
        decreases 12 - i,
    {
        let id = ids[i];
        assert(id@ == all_rules()[i as int]);
        if is_rule_used(id, findings, notes) {
            let ghost before = json_items(out@);
            let rule = object_of_one("id", json_text(id));
            out.push(rule);
            assert(json_items(out@) =~= before.push(json_contents(rule)));
        }
        i += 1;
    }
    out
}

fn results(findings: &[Finding], notes: &[Noted]) -> (r: Vec<Value>)
    ensures
        json_items(r@) == sarif_results(text::views(findings@), text::views(notes@)),
{
    let ghost all = sarif_results(text::views(findings@), text::views(notes@));
    let mut out: Vec<Value> = Vec::new();
    let mut i: usize = 0;
    while i < findings.len()
        invariant
            i <= findings@.len(),
            all == sarif_results(text::views(findings@), text::views(notes@)),
            json_items(out@) =~= all.take(i as int),
        decreases findings.len() - i,
    {
        let ghost before = json_items(out@);
        let result = finding_object(&findings[i]);
        assert(json_contents(result) == all[i as int]);
        out.push(result);
        assert(json_items(out@) =~= before.push(json_contents(result)));
        i += 1;
        assert(before.push(all[i - 1]) =~= all.take(i as int));
    }
    let mut j: usize = 0;
    while j < notes.len()
        invariant
            j <= notes@.len(),
            all == sarif_results(text::views(findings@), text::views(notes@)),
            json_items(out@) =~= all.take(findings@.len() + j),
        decreases notes.len() - j,
    {
        let ghost before = json_items(out@);
        let result = note_object(&notes[j]);
        assert(json_contents(result) == all[findings@.len() + j]);
        out.push(result);
        assert(json_items(out@) =~= before.push(json_contents(result)));
        j += 1;
        assert(before.push(all[findings@.len() + j - 1]) =~= all.take(findings@.len() + j));
    }
    assert(all.take(all.len() as int) =~= all);
    out
}

/// The SARIF document of the findings and the notes.
pub fn render_sarif(findings: &[Finding], notes: &[Noted]) -> (r: Value)
    ensures
        json_contents(r) == sarif_document(text::views(findings@), text::views(notes@)),
{
    let rules = json_list(rules(findings, notes));
    let mut driver: Vec<(String, Value)> = Vec::new();
    driver.push(("name".to_owned(), json_text("silicon")));
    driver.push(("version".to_owned(), json_text("0.1.0")));
    driver.push(("rules".to_owned(), rules));
    assert(json_members(driver@) =~= seq![
        ("name"@, JsonView::Text("silicon"@)),
        ("version"@, JsonView::Text("0.1.0"@)),
        ("rules"@, json_contents(rules)),
    ]);
    let tool = object_of_one("driver", json_object(driver));
    let results = json_list(results(findings, notes));
    let mut run: Vec<(String, Value)> = Vec::new();
    run.push(("tool".to_owned(), tool));
    run.push(("results".to_owned(), results));
    assert(json_members(run@) =~= seq![("tool"@, json_contents(tool)), ("results"@, json_contents(results))]);
    let run = json_object(run);
    let mut runs: Vec<Value> = Vec::new();
    runs.push(run);
    assert(json_items(runs@) =~= seq![json_contents(run)]);
    let runs = json_list(runs);
    let schema = json_text(
        "https://raw.githubusercontent.com/oasis-tcs/sarif-spec/master/Schemata/sarif-schema-2.1.0.json",
    );
    let mut document: Vec<(String, Value)> = Vec::new();
    document.push(("$schema".to_owned(), schema));
    document.push(("version".to_owned(), json_text("2.1.0")));
    document.push(("runs".to_owned(), runs));
    assert(json_members(document@) =~= seq![
        ("$schema"@, json_contents(schema)),
        ("version"@, JsonView::Text("2.1.0"@)),
        ("runs"@, json_contents(runs)),
    ]);
    json_object(document)
}

// ── What holds of every document ─────────────────────────────────────────────

/// The member `name` of an object.
pub open spec fn member(value: JsonView, name: Seq<char>) -> Option<JsonView> {
    match value {
        JsonView::Object(members) => if members.contains_key(name) {
            Some(members[name])
        } else {
            None
        },
        _ => None,
    }
}

/// The item at `i` of an array.
pub open spec fn item(value: JsonView, i: int) -> Option<JsonView> {
    match value {
        JsonView::List(items) => if 0 <= i < items.len() {
            Some(items[i])
        } else {
            None
        },
        _ => None,
    }
}

/// The one run of a document.
pub open spec fn document_run(document: JsonView) -> Option<JsonView> {
    match member(document, "runs"@) {
        Some(runs) => item(runs, 0),
        None => None,
    }
}

/// A document has the version 2.1.0 and one run, whose results are one for each finding
/// and one for each note, in order.
pub proof fn document_holds_all_results(findings: Seq<FindingView>, notes: Seq<NotedView>)
    ensures
        member(sarif_document(findings, notes), "version"@) == Some(JsonView::Text("2.1.0"@)),
        document_run(sarif_document(findings, notes)) matches Some(run) && member(run, "results"@) == Some(
            JsonView::List(sarif_results(findings, notes)),
        ),
        sarif_results(findings, notes).len() == findings.len() + notes.len(),
        forall|i: int|
            0 <= i < findings.len() ==> #[trigger] sarif_results(findings, notes)[i] == finding_result(findings[i]),
        forall|j: int|
            0 <= j < notes.len() ==> sarif_results(findings, notes)[findings.len() + j] == note_result(
                #[trigger] notes[j],
            ),
{
    reveal_strlit("$schema");
    reveal_strlit("version");
    reveal_strlit("runs");
    reveal_strlit("tool");
    reveal_strlit("results");
    assert("$schema"@[0] == '$' && "version"@[0] == 'v');
    let rules = rule_objects(all_rules().len(), findings, notes);
    let run = object(
        seq![
            ("tool"@, sarif_tool(rules)),
            ("results"@, JsonView::List(sarif_results(findings, notes))),
        ],
    );
    let members = seq![
        (
            "$schema"@,
            JsonView::Text(
                "https://raw.githubusercontent.com/oasis-tcs/sarif-spec/master/Schemata/sarif-schema-2.1.0.json"@,
            ),
        ),
        ("version"@, JsonView::Text("2.1.0"@)),
        ("runs"@, JsonView::List(seq![run])),
    ];
    reveal_with_fuel(member_map, 4);
    assert(members.drop_last().last() == members[1]);
    assert(sarif_document(findings, notes) == object(members));
}

/// A result has the rule of its finding and the level of its severity.
pub proof fn result_of_a_finding(f: FindingView)
    ensures
        member(finding_result(f), "ruleId"@) == Some(JsonView::Text(f.kind.rule_id())),
        member(finding_result(f), "level"@) == Some(JsonView::Text(report::severity_name(f.severity))),
        member(finding_result(f), "message"@) == Some(sarif_message(f.kind.message())),
        member(finding_result(f), "locations"@) == Some(sarif_locations(f.file, f.line)),
{
    reveal_strlit("ruleId");
    reveal_strlit("level");
    reveal_strlit("message");
    reveal_strlit("locations");
    reveal_with_fuel(member_map, 5);
    let members = seq![
        ("ruleId"@, JsonView::Text(f.kind.rule_id())),
        ("level"@, JsonView::Text(report::severity_name(f.severity))),
        ("message"@, sarif_message(f.kind.message())),
        ("locations"@, sarif_locations(f.file, f.line)),
    ];
    assert("ruleId"@.len() == 6 && "level"@.len() == 5 && "message"@.len() == 7 && "locations"@.len() == 9);
    assert(members.drop_last() =~= members.take(3));
    assert(members.take(3).drop_last() =~= members.take(2));
    assert(members.take(2).drop_last() =~= members.take(1));
    assert(members.take(1).drop_last() =~= members.take(0));
    assert(finding_result(f) == object(members));
}

/// The object that lists a rule.
pub open spec fn rule_object(id: Seq<char>) -> JsonView {
    object(seq![("id"@, JsonView::Text(id))])
}

/// The object that lists a rule has its id.
pub proof fn lemma_rule_object(id: Seq<char>)
    ensures
        member(rule_object(id), "id"@) == Some(JsonView::Text(id)),
{
    let members = seq![("id"@, JsonView::Text(id))];
    reveal_with_fuel(member_map, 2);
    assert(members.last() == members[0]);
}

proof fn lemma_listed(n: nat, findings: Seq<FindingView>, notes: Seq<NotedView>, id: Seq<char>)
    requires
        n <= all_rules().len(),
    ensures
        rule_objects(n, findings, notes).contains(rule_object(id)) <==> rule_used(id, findings, notes) && exists|
            k: int,
        | 0 <= k < n && #[trigger] all_rules()[k] == id,
    decreases n,
{
    if n > 0 {
        lemma_listed((n - 1) as nat, findings, notes, id);
        let last = all_rules()[n - 1];
        let before = rule_objects((n - 1) as nat, findings, notes);
        let all = rule_objects(n, findings, notes);
        lemma_rule_object(id);
        lemma_rule_object(last);
        if rule_used(last, findings, notes) {
            assert(all == before.push(rule_object(last)));
            if last == id {
                assert(all[before.len() as int] == rule_object(id));
            }
            if before.contains(rule_object(id)) {
                let k = before.index_of(rule_object(id));
                assert(all[k] == rule_object(id));
            }
            if all.contains(rule_object(id)) && last != id {
                let k = all.index_of(rule_object(id));
                assert(k < before.len());
                assert(before[k] == rule_object(id));
            }
        }
    }
}

/// A document lists exactly the rules that its results have.
pub proof fn listed_rules_are_those_used(findings: Seq<FindingView>, notes: Seq<NotedView>, id: Seq<char>)
    ensures
        rule_objects(all_rules().len(), findings, notes).contains(rule_object(id)) <==> rule_used(
            id,
            findings,
            notes,
        ),
{
    lemma_listed(all_rules().len(), findings, notes, id);
    if rule_used(id, findings, notes) {
        assert(all_rules()[7] == "note"@);
        if !(id == "note"@) {
            let i = choose|i: int| 0 <= i < findings.len() && (#[trigger] findings[i]).kind.rule_id() == id;
            assert(all_rules()[0] == "address-not-a-register"@);
            assert(all_rules()[1] == "field-value-not-in-enum"@);
            assert(all_rules()[2] == "hal-call-funcsel-not-in-enum"@);
            assert(all_rules()[3] == "hal-call-index-out-of-range"@);
            assert(all_rules()[4] == "hal-call-instance-not-in-svd"@);
            assert(all_rules()[5] == "hal-call-pin-out-of-range"@);
            assert(all_rules()[6] == "nonexistent-register"@);
            assert(all_rules()[8] == "value-exceeds-register-width"@);
            assert(all_rules()[9] == "value-sets-undefined-bits"@);
            assert(all_rules()[10] == "write-to-read-only-field"@);
            assert(all_rules()[11] == "write-to-read-only-register"@);
        }
    }
}

/// Each rule comes before the next one.
proof fn lemma_neighbours_in_order(k: int)
    requires
        0 <= k < all_rules().len() - 1,
    ensures
        path_order::text_before(all_rules()[k], all_rules()[k + 1]),
{
    reveal_strlit("address-not-a-register");
    reveal_strlit("field-value-not-in-enum");
    reveal_strlit("hal-call-funcsel-not-in-enum");
    reveal_strlit("hal-call-index-out-of-range");
    reveal_strlit("hal-call-instance-not-in-svd");
    reveal_strlit("hal-call-pin-out-of-range");
    reveal_strlit("nonexistent-register");
    reveal_strlit("note");
    reveal_strlit("value-exceeds-register-width");
    reveal_strlit("value-sets-undefined-bits");
    reveal_strlit("write-to-read-only-field");
    reveal_strlit("write-to-read-only-register");
    assert("address-not-a-register"@.len() == 22);
    assert("field-value-not-in-enum"@.len() == 23);
    assert("hal-call-funcsel-not-in-enum"@.len() == 28);
    assert("hal-call-index-out-of-range"@.len() == 27);
    assert("hal-call-instance-not-in-svd"@.len() == 28);
    assert("hal-call-pin-out-of-range"@.len() == 25);
    assert("nonexistent-register"@.len() == 20);
    assert("note"@.len() == 4);
    assert("value-exceeds-register-width"@.len() == 28);
    assert("value-sets-undefined-bits"@.len() == 25);
    assert("write-to-read-only-field"@.len() == 24);
    assert("write-to-read-only-register"@.len() == 27);
    path_order::lemma_ascii_differ("address-not-a-register"@, "field-value-not-in-enum"@, 0);
    path_order::lemma_ascii_differ("field-value-not-in-enum"@, "hal-call-funcsel-not-in-enum"@, 0);
    path_order::lemma_ascii_differ("hal-call-funcsel-not-in-enum"@, "hal-call-index-out-of-range"@, 9);
    path_order::lemma_ascii_differ("hal-call-index-out-of-range"@, "hal-call-instance-not-in-svd"@, 11);
    path_order::lemma_ascii_differ("hal-call-instance-not-in-svd"@, "hal-call-pin-out-of-range"@, 9);
    path_order::lemma_ascii_differ("hal-call-pin-out-of-range"@, "nonexistent-register"@, 0);
    path_order::lemma_ascii_differ("nonexistent-register"@, "note"@, 2);
    path_order::lemma_ascii_differ("note"@, "value-exceeds-register-width"@, 0);
    path_order::lemma_ascii_differ("value-exceeds-register-width"@, "value-sets-undefined-bits"@, 6);
    path_order::lemma_ascii_differ("value-sets-undefined-bits"@, "write-to-read-only-field"@, 0);
    path_order::lemma_ascii_differ("write-to-read-only-field"@, "write-to-read-only-register"@, 19);
}

proof fn lemma_rules_in_order(i: int, j: int)
    requires
        0 <= i < j < all_rules().len(),
    ensures
        path_order::text_before(all_rules()[i], all_rules()[j]),
    decreases j - i,
{
    lemma_neighbours_in_order(j - 1);
    if i < j - 1 {
        lemma_rules_in_order(i, j - 1);
        path_order::lemma_text_transitive(all_rules()[i], all_rules()[j - 1], all_rules()[j]);
    }
}

/// The place among all rules of the one that is listed at `i`.
pub proof fn lemma_listed_from(n: nat, findings: Seq<FindingView>, notes: Seq<NotedView>, i: int) -> (k: int)
    requires
        n <= all_rules().len(),
        0 <= i < rule_objects(n, findings, notes).len(),
    ensures
        0 <= k < n,
        rule_objects(n, findings, notes)[i] == rule_object(all_rules()[k]),
        rule_objects(k as nat, findings, notes).len() == i,
    decreases n,
{
    let before = rule_objects((n - 1) as nat, findings, notes);
    if i < before.len() {
        lemma_listed_from((n - 1) as nat, findings, notes, i)
    } else {
        n - 1
    }
}

proof fn lemma_lists_grow(n: nat, m: nat, findings: Seq<FindingView>, notes: Seq<NotedView>)
    requires
        n <= m <= all_rules().len(),
    ensures
        rule_objects(n, findings, notes).len() <= rule_objects(m, findings, notes).len(),
    decreases m,
{
    if n < m {
        lemma_lists_grow(n, (m - 1) as nat, findings, notes);
    }
}

/// A document lists its rules by their ids, in ascending order, each once.
pub proof fn rules_are_listed_in_order(findings: Seq<FindingView>, notes: Seq<NotedView>, i: int, j: int)
    requires
        0 <= i < j < rule_objects(all_rules().len(), findings, notes).len(),
    ensures
        member(rule_objects(all_rules().len(), findings, notes)[i], "id"@) matches Some(JsonView::Text(a)) && member(
            rule_objects(all_rules().len(), findings, notes)[j],
            "id"@,
        ) matches Some(JsonView::Text(b)) && path_order::text_before(a, b),
{
    let k = lemma_listed_from(all_rules().len(), findings, notes, i);
    let m = lemma_listed_from(all_rules().len(), findings, notes, j);
    lemma_rule_object(all_rules()[k]);
    lemma_rule_object(all_rules()[m]);
    if m <= k {
        lemma_lists_grow(m as nat, k as nat, findings, notes);
    }
    lemma_rules_in_order(k, m);
}

/// The result of a note is informational, and has the rule and the level of notes.
pub proof fn result_of_a_note(n: NotedView)
    ensures
        member(note_result(n), "ruleId"@) == Some(JsonView::Text("note"@)),
        member(note_result(n), "kind"@) == Some(JsonView::Text("informational"@)),
        member(note_result(n), "level"@) == Some(JsonView::Text("note"@)),
        member(note_result(n), "message"@) == Some(sarif_message(n.note.message())),
        member(note_result(n), "locations"@) == Some(sarif_locations(n.file, n.line)),
{
    reveal_strlit("ruleId");
    reveal_strlit("kind");
    reveal_strlit("level");
    reveal_strlit("message");
    reveal_strlit("locations");
    reveal_with_fuel(member_map, 6);
    let members = seq![
        ("ruleId"@, JsonView::Text("note"@)),
        ("kind"@, JsonView::Text("informational"@)),
        ("level"@, JsonView::Text("note"@)),
        ("message"@, sarif_message(n.note.message())),
        ("locations"@, sarif_locations(n.file, n.line)),
    ];
    assert("ruleId"@.len() == 6 && "kind"@.len() == 4 && "level"@.len() == 5 && "message"@.len() == 7
        && "locations"@.len() == 9);
    assert(members.drop_last() =~= members.take(4));
    assert(members.take(4).drop_last() =~= members.take(3));
    assert(members.take(3).drop_last() =~= members.take(2));
    assert(members.take(2).drop_last() =~= members.take(1));
    assert(members.take(1).drop_last() =~= members.take(0));
    assert(note_result(n) == object(members));
}

} // verus!
