//! Behavior triage: classified imports, behavior findings, their categories
//! and a bounded risk score.

use crate::analysis::report::{
    is_sorted_by, lemma_stable_sorted_elements, lemma_stable_sorted_sorted, strict_order, SortKey,
    api_class, behavior_from_string_category, classify_api, risk_level, risk_level_spec,
    severity_rank, severity_rank_spec, sort_stable, stable_sorted, string_behavior, views_of,
    ApiInsightReport, ApiInsightReportV, BehaviorCategoryReport, BehaviorCategoryReportV,
    BehaviorFinding, BehaviorFindingV, BehaviorReport, BehaviorReportV, SuspiciousStringReport,
    SuspiciousStringReportV,
};
use crate::analysis::strings::RuntimeMatch;
use crate::binary::parser::ImportInfo;
use crate::decompiler::structure::{lemma_lex_irreflexive, lemma_lex_transitive, lex_lt};
use crate::text::{chars_of, dec_text, eq_str, extend_chars, hex_text, lower_seq, push_dec, push_hex, string_of};
use vstd::prelude::*;

verus! {

// ---------------------------------------------------------------------------
// API insights
// ---------------------------------------------------------------------------

/// The insights about the functions imported from `library`, in order.
pub open spec fn insights_in(library: Seq<char>, funcs: Seq<Seq<char>>) -> Seq<ApiInsightReportV>
    decreases funcs.len(),
{
    if funcs.len() == 0 {
        seq![]
    } else {
        let r = insights_in(library, funcs.drop_last());
        match api_class(lower_seq(funcs.last())) {
            Some((c, s, m)) => r.push(
                ApiInsightReportV {
                    library,
                    function: funcs.last(),
                    category: c,
                    severity: s,
                    summary: m,
                },
            ),
            None => r,
        }
    }
}

pub open spec fn insights_flat(imports: Seq<ImportInfo>) -> Seq<ApiInsightReportV>
    decreases imports.len(),
{
    if imports.len() == 0 {
        seq![]
    } else {
        insights_flat(imports.drop_last()) + insights_in(
            imports.last().name@,
            imports.last().functions@.map_values(|s: String| s@),
        )
    }
}

/// Every classified import, highest severity first, then by category,
/// library and function.
pub open spec fn api_insights_spec(imports: Seq<ImportInfo>) -> Seq<ApiInsightReportV> {
    stable_sorted::<ApiInsightReport>(insights_flat(imports))
}

/// The classified imported APIs.
pub fn api_insights(imports: &[ImportInfo]) -> (r: Vec<ApiInsightReport>)
    ensures
        views_of(r@) == api_insights_spec(imports@),
{
    let mut out: Vec<ApiInsightReport> = Vec::new();
    let mut k: usize = 0;
    proof {
        assert(imports@.take(0) =~= seq![]);
        assert(views_of(out@) =~= seq![]);
    }
    while k < imports.len()
        invariant
            k <= imports@.len(),
            views_of(out@) == insights_flat(imports@.take(k as int)),
        decreases imports@.len() - k,
    {
        let imp = &imports[k];
        let ghost start = views_of(out@);
        let ghost fs = imp.functions@.map_values(|s: String| s@);
        let mut m: usize = 0;
        proof {
            assert(fs.take(0) =~= seq![]);
            assert(start + insights_in(imp.name@, fs.take(0)) =~= start);
        }
        while m < imp.functions.len()
            invariant
                m <= imp.functions@.len(),
                fs == imp.functions@.map_values(|s: String| s@),
                views_of(out@) == start + insights_in(imp.name@, fs.take(m as int)),
            decreases imp.functions@.len() - m,
        {
            proof {
                assert(fs.take(m + 1).drop_last() =~= fs.take(m as int));
                assert(fs[m as int] == imp.functions@[m as int]@);
            }
            let function = &imp.functions[m];
            let ghost before = views_of(out@);
            match classify_api(function.as_str()) {
                Some((category, severity, summary)) => {
                    let x = ApiInsightReport {
                        library: imp.name.clone(),
                        function: function.clone(),
                        category: category.to_string(),
                        severity: severity.to_string(),
                        summary: summary.to_string(),
                    };
                    out.push(x);
                    proof {
                        assert(views_of(out@) =~= before.push(x@));
                    }
                },
                None => {},
            }
            proof {
                assert(views_of(out@) =~= start + insights_in(imp.name@, fs.take(m + 1)));
            }
            m = m + 1;
        }
        proof {
            assert(imports@.take(k + 1).drop_last() =~= imports@.take(k as int));
            assert(imports@.take(k + 1).last() == *imp);
            assert(fs.take(fs.len() as int) =~= fs);
        }
        k = k + 1;
    }
    proof {
        assert(imports@.take(imports@.len() as int) =~= imports@);
    }
    sort_stable(out)
}

// ---------------------------------------------------------------------------
// Findings
// ---------------------------------------------------------------------------

/// The finding an API insight gives: `library!function - summary`.
pub open spec fn insight_finding(i: ApiInsightReportV) -> BehaviorFindingV {
    BehaviorFindingV {
        category: i.category,
        severity: i.severity,
        source: "import_table"@,
        detail: i.library + "!"@ + i.function + " - "@ + i.summary,
    }
}

/// The finding a suspicious string gives: `symbol @ 0xADDRESS: value`.
pub open spec fn string_finding(x: SuspiciousStringReportV) -> BehaviorFindingV {
    BehaviorFindingV {
        category: string_behavior(x.category).0,
        severity: string_behavior(x.category).1,
        source: "string"@,
        detail: x.symbol + " @ 0x"@ + hex_text(x.address as nat, true) + ": "@ + x.value,
    }
}

/// The finding a confident runtime match gives: `name (confidence%)`.
pub open spec fn runtime_finding(name: Seq<char>, confidence: u8) -> BehaviorFindingV {
    BehaviorFindingV {
        category: "runtime_packaging"@,
        severity: "low"@,
        source: "runtime_detector"@,
        detail: name + " ("@ + dec_text(confidence as nat) + "%)"@,
    }
}

pub open spec fn runtime_findings(rt: Seq<RuntimeMatch>) -> Seq<BehaviorFindingV>
    decreases rt.len(),
{
    if rt.len() == 0 {
        seq![]
    } else if rt.last().confidence >= 70 {
        runtime_findings(rt.drop_last()).push(runtime_finding(rt.last().name@, rt.last().confidence))
    } else {
        runtime_findings(rt.drop_last())
    }
}

/// All findings, from imports, strings and runtime matches (confidence at
/// least 70), highest severity first, then by category and detail.
pub open spec fn findings_spec(
    ins: Seq<ApiInsightReportV>,
    sus: Seq<SuspiciousStringReportV>,
    rt: Seq<RuntimeMatch>,
) -> Seq<BehaviorFindingV> {
    stable_sorted::<BehaviorFinding>(
        ins.map_values(|i: ApiInsightReportV| insight_finding(i)) + sus.map_values(
            |x: SuspiciousStringReportV| string_finding(x),
        ) + runtime_findings(rt),
    )
}

fn finding_of_insight(i: &ApiInsightReport) -> (r: BehaviorFinding)
    ensures
        r@ == insight_finding(i@),
{
    let mut d: Vec<char> = Vec::new();
    extend_chars(&mut d, i.library.as_str());
    extend_chars(&mut d, "!");
    extend_chars(&mut d, i.function.as_str());
    extend_chars(&mut d, " - ");
    extend_chars(&mut d, i.summary.as_str());
    BehaviorFinding {
        category: i.category.clone(),
        severity: i.severity.clone(),
        source: "import_table".to_string(),
        detail: string_of(&d),
    }
}

fn finding_of_string(x: &SuspiciousStringReport) -> (r: BehaviorFinding)
    ensures
        r@ == string_finding(x@),
{
    let (category, severity) = behavior_from_string_category(x.category.as_str());
    let mut d: Vec<char> = Vec::new();
    extend_chars(&mut d, x.symbol.as_str());
    extend_chars(&mut d, " @ 0x");
    push_hex(&mut d, x.address, true);
    extend_chars(&mut d, ": ");
    extend_chars(&mut d, x.value.as_str());
    BehaviorFinding {
        category: category.to_string(),
        severity: severity.to_string(),
        source: "string".to_string(),
        detail: string_of(&d),
    }
}

fn finding_of_runtime(rt: &RuntimeMatch) -> (r: BehaviorFinding)
    ensures
        r@ == runtime_finding(rt.name@, rt.confidence),
{
    let mut d: Vec<char> = Vec::new();
    extend_chars(&mut d, rt.name.as_str());
    extend_chars(&mut d, " (");
    push_dec(&mut d, rt.confidence as u64);
    extend_chars(&mut d, "%)");
    BehaviorFinding {
        category: "runtime_packaging".to_string(),
        severity: "low".to_string(),
        source: "runtime_detector".to_string(),
        detail: string_of(&d),
    }
}

/// The behavior findings, ordered by severity, category and detail.
pub fn behavior_findings(
    api_insights: &[ApiInsightReport],
    suspicious_strings: &[SuspiciousStringReport],
    runtime_matches: &[RuntimeMatch],
) -> (r: Vec<BehaviorFinding>)
    ensures
        views_of(r@) == findings_spec(
            views_of(api_insights@),
            views_of(suspicious_strings@),
            runtime_matches@,
        ),
{
    let ghost iv = views_of(api_insights@);
    let ghost sv = views_of(suspicious_strings@);
    let mut out: Vec<BehaviorFinding> = Vec::new();
    let mut i: usize = 0;
    while i < api_insights.len()
        invariant
            i <= api_insights@.len(),
            iv == views_of(api_insights@),
            views_of(out@) == iv.take(i as int).map_values(|x: ApiInsightReportV| insight_finding(x)),
        decreases api_insights@.len() - i,
    {
        let ghost before = views_of(out@);
        let f = finding_of_insight(&api_insights[i]);
        out.push(f);
        proof {
            assert(iv[i as int] == api_insights@[i as int]@);
            assert(views_of(out@) =~= before.push(f@));
            assert(iv.take(i + 1).map_values(|x: ApiInsightReportV| insight_finding(x))
                =~= iv.take(i as int).map_values(|x: ApiInsightReportV| insight_finding(x)).push(
                insight_finding(iv[i as int]),
            ));
            assert(views_of(out@) =~= iv.take(i + 1).map_values(
                |x: ApiInsightReportV| insight_finding(x),
            ));
        }
        i = i + 1;
    }
    let ghost part1 = views_of(out@);
    let mut j: usize = 0;
    proof {
        assert(iv.take(iv.len() as int) =~= iv);
        assert(part1 + sv.take(0).map_values(|x: SuspiciousStringReportV| string_finding(x))
            =~= part1);
    }
    while j < suspicious_strings.len()
        invariant
            j <= suspicious_strings@.len(),
            sv == views_of(suspicious_strings@),
            views_of(out@) == part1 + sv.take(j as int).map_values(
                |x: SuspiciousStringReportV| string_finding(x),
            ),
        decreases suspicious_strings@.len() - j,
    {
        let ghost before = views_of(out@);
        let f = finding_of_string(&suspicious_strings[j]);
        out.push(f);
        proof {
            assert(sv[j as int] == suspicious_strings@[j as int]@);
            assert(views_of(out@) =~= before.push(f@));
            assert(sv.take(j + 1).map_values(|x: SuspiciousStringReportV| string_finding(x))
                =~= sv.take(j as int).map_values(|x: SuspiciousStringReportV| string_finding(x)).push(
                string_finding(sv[j as int]),
            ));
            assert(views_of(out@) =~= part1 + sv.take(j + 1).map_values(
                |x: SuspiciousStringReportV| string_finding(x),
            ));
        }
        j = j + 1;
    }
    let ghost part2 = views_of(out@);
    let mut k: usize = 0;
    proof {
        assert(sv.take(sv.len() as int) =~= sv);
        assert(runtime_matches@.take(0) =~= seq![]);
        assert(part2 + runtime_findings(runtime_matches@.take(0)) =~= part2);
    }
    while k < runtime_matches.len()
        invariant
            k <= runtime_matches@.len(),
            views_of(out@) == part2 + runtime_findings(runtime_matches@.take(k as int)),
        decreases runtime_matches@.len() - k,
    {
        proof {
            assert(runtime_matches@.take(k + 1).drop_last() =~= runtime_matches@.take(k as int));
        }
        let ghost before = views_of(out@);
        let rt = &runtime_matches[k];
        if rt.confidence >= 70 {
            let f = finding_of_runtime(rt);
            out.push(f);
            proof {
                assert(views_of(out@) =~= before.push(f@));
            }
        }
        proof {
            assert(views_of(out@) =~= part2 + runtime_findings(runtime_matches@.take(k + 1)));
        }
        k = k + 1;
    }
    proof {
        assert(runtime_matches@.take(runtime_matches@.len() as int) =~= runtime_matches@);
    }
    sort_stable(out)
}

// ---------------------------------------------------------------------------
// Categories
// ---------------------------------------------------------------------------

/// `cs[j]` is the category named `name`.
pub open spec fn category_at(cs: Seq<BehaviorCategoryReportV>, j: int, name: Seq<char>) -> bool {
    0 <= j < cs.len() && cs[j].name == name
}

/// No two categories have the same name.
pub open spec fn category_names_unique(cs: Seq<BehaviorCategoryReportV>) -> bool {
    forall|i: int, j: int|
        #![trigger cs[i], cs[j]]
        0 <= i < cs.len() && 0 <= j < cs.len() && i != j ==> cs[i].name != cs[j].name
}

/// One more finding: its detail joins the evidence of its category, whose
/// severity rises to the finding's when that is strictly higher; or it opens
/// a new category.
pub open spec fn add_finding(cs: Seq<BehaviorCategoryReportV>, f: BehaviorFindingV) -> Seq<
    BehaviorCategoryReportV,
> {
    if exists|j: int| category_at(cs, j, f.category) {
        let j = choose|j: int| category_at(cs, j, f.category);
        let c = cs[j];
        cs.update(
            j,
            BehaviorCategoryReportV {
                name: c.name,
                severity: if severity_rank_spec(f.severity) > severity_rank_spec(c.severity) {
                    f.severity
                } else {
                    c.severity
                },
                evidence_count: (c.evidence.len() + 1) as usize,
                evidence: c.evidence.push(f.detail),
            },
        )
    } else {
        cs.push(
            BehaviorCategoryReportV {
                name: f.category,
                severity: f.severity,
                evidence_count: 1,
                evidence: seq![f.detail],
            },
        )
    }
}

/// The categories of the findings, in order of first appearance.
pub open spec fn grouped_categories(fs: Seq<BehaviorFindingV>) -> Seq<BehaviorCategoryReportV>
    decreases fs.len(),
{
    if fs.len() == 0 {
        seq![]
    } else {
        add_finding(grouped_categories(fs.drop_last()), fs.last())
    }
}

/// The categories, highest severity first, then by name.
pub open spec fn behavior_categories_spec(fs: Seq<BehaviorFindingV>) -> Seq<BehaviorCategoryReportV> {
    stable_sorted::<BehaviorCategoryReport>(grouped_categories(fs))
}

fn same_text(a: &String, b: &String) -> (r: bool)
    ensures
        r == (a@ == b@),
{
    crate::text::eq_chars(&chars_of(a.as_str()), &chars_of(b.as_str()))
}

fn find_category(cs: &Vec<BehaviorCategoryReport>, name: &String) -> (r: Option<usize>)
    ensures
        match r {
            Some(j) => category_at(views_of(cs@), j as int, name@),
            None => forall|j: int| !category_at(views_of(cs@), j, name@),
        },
{
    let mut j: usize = 0;
    while j < cs.len()
        invariant
            j <= cs@.len(),
            forall|i: int| 0 <= i < j ==> !category_at(views_of(cs@), i, name@),
        decreases cs@.len() - j,
    {
        if same_text(&cs[j].name, name) {
            return Some(j);
        }
        j = j + 1;
    }
    None
}

fn add_one_finding(out: &mut Vec<BehaviorCategoryReport>, f: &BehaviorFinding)
    requires
        category_names_unique(views_of(old(out)@)),
    ensures
        views_of(final(out)@) == add_finding(views_of(old(out)@), f@),
        category_names_unique(views_of(final(out)@)),
{
    let ghost before = views_of(out@);
    match find_category(out, &f.category) {
        Some(j) => {
            let mut c = out.remove(j);
            let ghost ev0 = c.evidence@;
            if severity_rank(f.severity.as_str()) > severity_rank(c.severity.as_str()) {
                c.severity = f.severity.clone();
            }
            c.evidence.push(f.detail.clone());
            c.evidence_count = c.evidence.len();
            out.insert(j, c);
            proof {
                let jj = choose|jj: int| category_at(before, jj, f.category@);
                assert(category_at(before, jj, f.category@));
                assert(jj == j as int);
                assert(c.evidence@.map_values(|s: String| s@) =~= ev0.map_values(|s: String| s@).push(
                    f.detail@,
                ));
                assert(views_of(out@) =~= add_finding(before, f@));
                let after = views_of(out@);
                assert forall|a: int, b: int|
                    0 <= a < after.len() && 0 <= b < after.len() && a != b implies after[a].name
                    != after[b].name by {
                    assert(before[a].name == after[a].name);
                    assert(before[b].name == after[b].name);
                }
            }
        },
        None => {
            let mut evidence: Vec<String> = Vec::new();
            evidence.push(f.detail.clone());
            out.push(
                BehaviorCategoryReport {
                    name: f.category.clone(),
                    severity: f.severity.clone(),
                    evidence_count: 1,
                    evidence,
                },
            );
            proof {
                assert(evidence@.map_values(|s: String| s@) =~= seq![f.detail@]);
                assert(views_of(out@) =~= add_finding(before, f@));
                let after = views_of(out@);
                assert forall|a: int, b: int|
                    0 <= a < after.len() && 0 <= b < after.len() && a != b implies after[a].name
                    != after[b].name by {
                    if a == before.len() {
                        assert(!category_at(before, b, f.category@));
                    } else if b == before.len() {
                        assert(!category_at(before, a, f.category@));
                    } else {
                        assert(before[a] == after[a]);
                        assert(before[b] == after[b]);
                    }
                }
            }
        },
    }
}

/// Findings grouped by category, ordered by severity and name.
pub fn behavior_categories(findings: &[BehaviorFinding]) -> (r: Vec<BehaviorCategoryReport>)
    ensures
        views_of(r@) == behavior_categories_spec(views_of(findings@)),
{
    let ghost fv = views_of(findings@);
    let mut out: Vec<BehaviorCategoryReport> = Vec::new();
    let mut k: usize = 0;
    proof {
        assert(fv.take(0) =~= seq![]);
        assert(views_of(out@) =~= seq![]);
    }
    while k < findings.len()
        invariant
            k <= findings@.len(),
            fv == views_of(findings@),
            views_of(out@) == grouped_categories(fv.take(k as int)),
            category_names_unique(views_of(out@)),
        decreases findings@.len() - k,
    {
        proof {
            assert(fv.take(k + 1).drop_last() =~= fv.take(k as int));
            assert(fv[k as int] == findings@[k as int]@);
        }
        add_one_finding(&mut out, &findings[k]);
        k = k + 1;
    }
    proof {
        assert(fv.take(fv.len() as int) =~= fv);
    }
    sort_stable(out)
}

// ---------------------------------------------------------------------------
// Risk score
// ---------------------------------------------------------------------------

/// A finding's weight by severity: high 35, medium 8, low 2, else 0.
pub open spec fn severity_weight(s: Seq<char>) -> u8 {
    if s == "high"@ {
        35
    } else if s == "medium"@ {
        8
    } else if s == "low"@ {
        2
    } else {
        0
    }
}

pub open spec fn weight_at(ws: Seq<(Seq<char>, u8)>, j: int, name: Seq<char>) -> bool {
    0 <= j < ws.len() && ws[j].0 == name
}

/// One more finding: its category's weight becomes the larger of the two.
pub open spec fn add_weight(ws: Seq<(Seq<char>, u8)>, f: BehaviorFindingV) -> Seq<(Seq<char>, u8)> {
    let w = severity_weight(f.severity);
    if exists|j: int| weight_at(ws, j, f.category) {
        let j = choose|j: int| weight_at(ws, j, f.category);
        ws.update(j, (ws[j].0, if ws[j].1 >= w { ws[j].1 } else { w }))
    } else {
        ws.push((f.category, w))
    }
}

/// Each category with the largest weight among its findings.
pub open spec fn category_weights(fs: Seq<BehaviorFindingV>) -> Seq<(Seq<char>, u8)>
    decreases fs.len(),
{
    if fs.len() == 0 {
        seq![]
    } else {
        add_weight(category_weights(fs.drop_last()), fs.last())
    }
}

pub open spec fn weight_sum(ws: Seq<(Seq<char>, u8)>) -> nat
    decreases ws.len(),
{
    if ws.len() == 0 {
        0
    } else {
        weight_sum(ws.drop_last()) + ws.last().1 as nat
    }
}

/// The number of findings that come from strings.
pub open spec fn string_finding_count(fs: Seq<BehaviorFindingV>) -> nat
    decreases fs.len(),
{
    if fs.len() == 0 {
        0
    } else {
        string_finding_count(fs.drop_last()) + if fs.last().source == "string"@ {
            1nat
        } else {
            0nat
        }
    }
}

pub open spec fn has_high(fs: Seq<BehaviorFindingV>) -> bool {
    exists|i: int| 0 <= i < fs.len() && #[trigger] fs[i].severity == "high"@
}

pub open spec fn min_nat(a: nat, b: nat) -> nat {
    if a <= b {
        a
    } else {
        b
    }
}

/// The risk score: the sum of the category weights, plus two per string
/// finding (at most four count), saturated at 255; capped at 100 when some
/// finding is high, else at 69.
pub open spec fn risk_score_spec(fs: Seq<BehaviorFindingV>) -> u8 {
    let total = min_nat(weight_sum(category_weights(fs)) + 2 * min_nat(string_finding_count(fs), 4), 255);
    if has_high(fs) {
        min_nat(total, 100) as u8
    } else {
        min_nat(total, 69) as u8
    }
}

fn weight_of(severity: &String) -> (r: u8)
    ensures
        r == severity_weight(severity@),
{
    let s = chars_of(severity.as_str());
    if eq_str(&s, "high") {
        35
    } else if eq_str(&s, "medium") {
        8
    } else if eq_str(&s, "low") {
        2
    } else {
        0
    }
}

proof fn lemma_weight_sum_prefix(ws: Seq<(Seq<char>, u8)>, i: int)
    requires
        0 <= i <= ws.len(),
    ensures
        weight_sum(ws.take(i)) <= weight_sum(ws),
    decreases ws.len() - i,
{
    if i == ws.len() {
        assert(ws.take(i) =~= ws);
    } else {
        lemma_weight_sum_prefix(ws, i + 1);
        assert(ws.take(i + 1).drop_last() =~= ws.take(i));
    }
}

fn find_name(names: &Vec<String>, name: &String) -> (r: Option<usize>)
    ensures
        match r {
            Some(j) => j < names@.len() && names@[j as int]@ == name@,
            None => forall|j: int| 0 <= j < names@.len() ==> names@[j]@ != name@,
        },
{
    let mut j: usize = 0;
    while j < names.len()
        invariant
            j <= names@.len(),
            forall|i: int| 0 <= i < j ==> names@[i]@ != name@,
        decreases names@.len() - j,
    {
        if same_text(&names[j], name) {
            return Some(j);
        }
        j = j + 1;
    }
    None
}

proof fn lemma_weight_names_unique(fs: Seq<BehaviorFindingV>)
    ensures
        forall|i: int, j: int|
            #![trigger category_weights(fs)[i], category_weights(fs)[j]]
            0 <= i < category_weights(fs).len() && 0 <= j < category_weights(fs).len() && i != j
                ==> category_weights(fs)[i].0 != category_weights(fs)[j].0,
    decreases fs.len(),
{
    if fs.len() > 0 {
        lemma_weight_names_unique(fs.drop_last());
        let ws = category_weights(fs.drop_last());
        let f = fs.last();
        let after = category_weights(fs);
        if exists|j: int| weight_at(ws, j, f.category) {
            let j = choose|j: int| weight_at(ws, j, f.category);
            assert forall|a: int, b: int|
                0 <= a < after.len() && 0 <= b < after.len() && a != b implies after[a].0
                != after[b].0 by {
                assert(after[a].0 == ws[a].0);
                assert(after[b].0 == ws[b].0);
            }
        } else {
            assert forall|a: int, b: int|
                0 <= a < after.len() && 0 <= b < after.len() && a != b implies after[a].0
                != after[b].0 by {
                if a == ws.len() {
                    assert(!weight_at(ws, b, f.category));
                } else if b == ws.len() {
                    assert(!weight_at(ws, a, f.category));
                } else {
                    assert(after[a] == ws[a]);
                    assert(after[b] == ws[b]);
                }
            }
        }
    }
}

/// The behavior risk score of the findings.
pub fn risk_score(findings: &[BehaviorFinding]) -> (r: u8)
    requires
        weight_sum(category_weights(views_of(findings@))) <= 255,
    ensures
        r == risk_score_spec(views_of(findings@)),
{
    let ghost fv = views_of(findings@);
    let mut names: Vec<String> = Vec::new();
    let mut weights: Vec<u8> = Vec::new();
    let mut strings: usize = 0;
    let mut high = false;
    let mut k: usize = 0;
    proof {
        assert(fv.take(0) =~= seq![]);
    }
    while k < findings.len()
        invariant
            k <= findings@.len(),
            fv == views_of(findings@),
            names@.len() == weights@.len(),
            category_weights(fv.take(k as int)).len() == names@.len(),
            forall|j: int|
                0 <= j < names@.len() ==> (#[trigger] category_weights(fv.take(k as int))[j]) == (
                names@[j]@,
                weights@[j],
            ),
            strings == string_finding_count(fv.take(k as int)),
            strings <= k,
            high == has_high(fv.take(k as int)),
        decreases findings@.len() - k,
    {
        let ghost prev = fv.take(k as int);
        let ghost ws0 = category_weights(prev);
        proof {
            assert(fv.take(k + 1).drop_last() =~= prev);
            assert(fv.take(k + 1).last() == findings@[k as int]@);
            lemma_weight_names_unique(prev);
        }
        let f = &findings[k];
        let w = weight_of(&f.severity);
        match find_name(&names, &f.category) {
            Some(j) => {
                proof {
                    assert(ws0[j as int] == (names@[j as int]@, weights@[j as int]));
                    assert(weight_at(ws0, j as int, f.category@));
                    let jj = choose|jj: int| weight_at(ws0, jj, f.category@);
                    assert(weight_at(ws0, jj, f.category@));
                    assert(jj == j as int);
                }
                if weights[j] < w {
                    weights.set(j, w);
                }
                proof {
                    let ws1 = category_weights(fv.take(k + 1));
                    assert forall|i: int| 0 <= i < names@.len() implies #[trigger] ws1[i] == (
                        names@[i]@,
                        weights@[i],
                    ) by {
                        if i != j as int {
                            assert(ws0[i] == (names@[i]@, weights@[i]));
                        }
                    }
                }
            },
            None => {
                proof {
                    assert forall|jj: int| !weight_at(ws0, jj, f.category@) by {
                        if 0 <= jj < ws0.len() {
                            assert(ws0[jj] == (names@[jj]@, weights@[jj]));
                        }
                    }
                }
                names.push(f.category.clone());
                weights.push(w);
                proof {
                    let ws1 = category_weights(fv.take(k + 1));
                    assert forall|i: int| 0 <= i < names@.len() implies #[trigger] ws1[i] == (
                        names@[i]@,
                        weights@[i],
                    ) by {
                        if i < ws0.len() {
                            assert(ws0[i] == (names@[i]@, weights@[i]));
                        }
                    }
                }
            },
        }
        if eq_str(&chars_of(f.source.as_str()), "string") {
            strings = strings + 1;
        }
        if eq_str(&chars_of(f.severity.as_str()), "high") {
            high = true;
            proof {
                assert(fv.take(k + 1)[k as int].severity == "high"@);
            }
        }
        proof {
            let nxt = fv.take(k + 1);
            if has_high(nxt) && !has_high(prev) {
                let i = choose|i: int| 0 <= i < nxt.len() && #[trigger] nxt[i].severity == "high"@;
                if i < k {
                    assert(prev[i] == nxt[i]);
                }
            }
            if has_high(prev) {
                let i = choose|i: int| 0 <= i < prev.len() && #[trigger] prev[i].severity == "high"@;
                assert(nxt[i] == prev[i]);
            }
        }
        k = k + 1;
    }
    let ghost cw = category_weights(fv);
    proof {
        assert(fv.take(k as int) =~= fv);
    }
    let mut total: u8 = 0;
    let mut i: usize = 0;
    proof {
        assert(cw.take(0) =~= seq![]);
    }
    while i < weights.len()
        invariant
            i <= weights@.len(),
            weights@.len() == cw.len(),
            forall|j: int| 0 <= j < weights@.len() ==> (#[trigger] cw[j]).1 == weights@[j],
            weight_sum(cw) <= 255,
            total == weight_sum(cw.take(i as int)),
        decreases weights@.len() - i,
    {
        proof {
            assert(cw.take(i + 1).drop_last() =~= cw.take(i as int));
            assert(cw[i as int].1 == weights@[i as int]);
            lemma_weight_sum_prefix(cw, i + 1);
        }
        total = total + weights[i];
        i = i + 1;
    }
    proof {
        assert(cw.take(i as int) =~= cw);
    }
    let bonus: u8 = if strings > 4 {
        8
    } else {
        (strings as u8) * 2
    };
    let sum: u16 = total as u16 + bonus as u16;
    let t: u8 = if sum > 255 {
        255
    } else {
        sum as u8
    };
    if high {
        if t > 100 {
            100
        } else {
            t
        }
    } else if t > 69 {
        69
    } else {
        t
    }
}

// ---------------------------------------------------------------------------
// Behavior report
// ---------------------------------------------------------------------------

/// The behavior report: findings, their categories, the risk score and its level.
pub open spec fn behavior_report_spec(
    ins: Seq<ApiInsightReportV>,
    sus: Seq<SuspiciousStringReportV>,
    rt: Seq<RuntimeMatch>,
) -> BehaviorReportV {
    let fs = findings_spec(ins, sus, rt);
    BehaviorReportV {
        risk_score: risk_score_spec(fs),
        risk_level: risk_level_spec(risk_score_spec(fs)),
        categories: behavior_categories_spec(fs),
        findings: fs,
    }
}

/// The behavior triage of classified imports, suspicious strings and runtime matches.
pub fn behavior_report(
    api_insights: &[ApiInsightReport],
    suspicious_strings: &[SuspiciousStringReport],
    runtime_matches: &[RuntimeMatch],
) -> (r: BehaviorReport)
    requires
        weight_sum(
            category_weights(
                findings_spec(
                    views_of(api_insights@),
                    views_of(suspicious_strings@),
                    runtime_matches@,
                ),
            ),
        ) <= 255,
    ensures
        r@ == behavior_report_spec(
            views_of(api_insights@),
            views_of(suspicious_strings@),
            runtime_matches@,
        ),
{
    let findings = behavior_findings(api_insights, suspicious_strings, runtime_matches);
    let categories = behavior_categories(&findings);
    let score = risk_score(&findings);
    let level = risk_level(score).to_string();
    let r = BehaviorReport { risk_score: score, risk_level: level, categories, findings };
    proof {
        assert(r@.categories =~= views_of(categories@));
        assert(r@.findings =~= views_of(findings@));
    }
    r
}

// ---------------------------------------------------------------------------
// The risk weights stay small
// ---------------------------------------------------------------------------

/// The largest weight a finding of each known category can carry.
pub open spec fn category_cap(c: Seq<char>) -> nat {
    if c == "process_injection"@ || c == "persistence"@ {
        35
    } else if c == "network"@ || c == "registry"@ || c == "process_execution"@ || c == "filesystem"@
        || c == "memory"@ || c == "dynamic_loading"@ || c == "anti_debug"@ || c == "crypto"@
        || c == "credential_access"@ {
        8
    } else if c == "string_indicator"@ || c == "runtime_packaging"@ {
        2
    } else {
        0
    }
}

pub open spec fn known_categories() -> Seq<Seq<char>> {
    seq![
        "process_injection"@,
        "persistence"@,
        "network"@,
        "registry"@,
        "process_execution"@,
        "filesystem"@,
        "memory"@,
        "dynamic_loading"@,
        "anti_debug"@,
        "crypto"@,
        "credential_access"@,
        "string_indicator"@,
        "runtime_packaging"@,
    ]
}

/// The caps of the names in `k` that `used` does not hold.
pub open spec fn budget(k: Seq<Seq<char>>, used: Set<Seq<char>>) -> nat
    decreases k.len(),
{
    if k.len() == 0 {
        0
    } else {
        budget(k.drop_last(), used) + if used.contains(k.last()) {
            0nat
        } else {
            category_cap(k.last())
        }
    }
}

pub open spec fn weight_names(ws: Seq<(Seq<char>, u8)>) -> Set<Seq<char>> {
    Set::new(|n: Seq<char>| exists|i: int| 0 <= i < ws.len() && ws[i].0 == n)
}

/// A finding weighs no more than its category's cap.
pub open spec fn finding_capped(f: BehaviorFindingV) -> bool {
    severity_weight(f.severity) <= category_cap(f.category)
}

proof fn lemma_budget_insert(k: Seq<Seq<char>>, used: Set<Seq<char>>, n: Seq<char>)
    requires
        !used.contains(n),
        forall|a: int, b: int| 0 <= a < b < k.len() ==> #[trigger] k[a] != #[trigger] k[b],
    ensures
        budget(k, used) == budget(k, used.insert(n)) + if k.contains(n) {
            category_cap(n)
        } else {
            0nat
        },
    decreases k.len(),
{
    if k.len() > 0 {
        let pre = k.drop_last();
        assert forall|a: int, b: int| 0 <= a < b < pre.len() implies #[trigger] pre[a] != #[trigger] pre[b] by {
            assert(pre[a] == k[a] && pre[b] == k[b]);
        }
        lemma_budget_insert(pre, used, n);
        if k.last() == n {
            assert(!pre.contains(n)) by {
                if pre.contains(n) {
                    let a = choose|a: int| 0 <= a < pre.len() && pre[a] == n;
                    assert(k[a] == k[k.len() - 1]);
                }
            }
            assert(k.contains(n)) by {
                assert(k[k.len() - 1] == n);
            }
        } else {
            assert(k.contains(n) == pre.contains(n)) by {
                if k.contains(n) {
                    let a = choose|a: int| 0 <= a < k.len() && k[a] == n;
                    assert(a < k.len() - 1);
                    assert(pre[a] == n);
                }
                if pre.contains(n) {
                    let a = choose|a: int| 0 <= a < pre.len() && pre[a] == n;
                    assert(k[a] == n);
                }
            }
        }
    }
}

proof fn lemma_cap_known(n: Seq<char>)
    ensures
        category_cap(n) > 0 ==> known_categories().contains(n),
{
    let k = known_categories();
    if category_cap(n) > 0 {
        if n == "process_injection"@ { assert(k[0] == n); }
        else if n == "persistence"@ { assert(k[1] == n); }
        else if n == "network"@ { assert(k[2] == n); }
        else if n == "registry"@ { assert(k[3] == n); }
        else if n == "process_execution"@ { assert(k[4] == n); }
        else if n == "filesystem"@ { assert(k[5] == n); }
        else if n == "memory"@ { assert(k[6] == n); }
        else if n == "dynamic_loading"@ { assert(k[7] == n); }
        else if n == "anti_debug"@ { assert(k[8] == n); }
        else if n == "crypto"@ { assert(k[9] == n); }
        else if n == "credential_access"@ { assert(k[10] == n); }
        else if n == "string_indicator"@ { assert(k[11] == n); }
        else { assert(k[12] == n); }
    }
}

proof fn lemma_known_distinct()
    ensures
        forall|a: int, b: int|
            0 <= a < b < known_categories().len() ==> #[trigger] known_categories()[a]
                != #[trigger] known_categories()[b],
{
    reveal_strlit("process_injection");
    reveal_strlit("persistence");
    reveal_strlit("network");
    reveal_strlit("registry");
    reveal_strlit("process_execution");
    reveal_strlit("filesystem");
    reveal_strlit("memory");
    reveal_strlit("dynamic_loading");
    reveal_strlit("anti_debug");
    reveal_strlit("crypto");
    reveal_strlit("credential_access");
    reveal_strlit("string_indicator");
    reveal_strlit("runtime_packaging");
    let k = known_categories();
    assert forall|a: int, b: int| 0 <= a < b < k.len() implies #[trigger] k[a] != #[trigger] k[b] by {
        if k[a] == k[b] {
            assert(k[a].len() == k[b].len());
            assert(k[a][0] == k[b][0]);
            if k[a].len() > 8 {
                assert(k[a][8] == k[b][8]);
            }
        }
    }
}

proof fn lemma_weights_within_budget(ws: Seq<(Seq<char>, u8)>)
    requires
        forall|a: int, b: int| 0 <= a < ws.len() && 0 <= b < ws.len() && a != b ==> #[trigger] ws[a].0 != #[trigger] ws[b].0,
        forall|i: int| 0 <= i < ws.len() ==> (#[trigger] ws[i]).1 <= category_cap(ws[i].0),
    ensures
        weight_sum(ws) + budget(known_categories(), weight_names(ws)) <= budget(known_categories(), Set::empty()),
    decreases ws.len(),
{
    let k = known_categories();
    if ws.len() == 0 {
        assert(weight_names(ws) =~= Set::empty());
    } else {
        let pre = ws.drop_last();
        let w = ws.last();
        assert forall|a: int, b: int| 0 <= a < pre.len() && 0 <= b < pre.len() && a != b implies #[trigger] pre[a].0 != #[trigger] pre[b].0 by {
            assert(pre[a] == ws[a] && pre[b] == ws[b]);
        }
        assert forall|i: int| 0 <= i < pre.len() implies (#[trigger] pre[i]).1 <= category_cap(pre[i].0) by {
            assert(pre[i] == ws[i]);
        }
        lemma_weights_within_budget(pre);
        assert(!weight_names(pre).contains(w.0)) by {
            if weight_names(pre).contains(w.0) {
                let i = choose|i: int| 0 <= i < pre.len() && pre[i].0 == w.0;
                assert(ws[i].0 == ws[ws.len() - 1].0);
            }
        }
        assert(weight_names(ws) =~= weight_names(pre).insert(w.0)) by {
            assert forall|n: Seq<char>| weight_names(ws).contains(n) == weight_names(pre).insert(w.0).contains(n) by {
                if weight_names(ws).contains(n) {
                    let i = choose|i: int| 0 <= i < ws.len() && ws[i].0 == n;
                    if i < pre.len() {
                        assert(pre[i].0 == n);
                    }
                }
                if weight_names(pre).contains(n) {
                    let i = choose|i: int| 0 <= i < pre.len() && pre[i].0 == n;
                    assert(ws[i].0 == n);
                }
                if n == w.0 {
                    assert(ws[ws.len() - 1].0 == n);
                }
            }
        }
        lemma_known_distinct();
        lemma_budget_insert(k, weight_names(pre), w.0);
        lemma_cap_known(w.0);
        assert(w.1 <= category_cap(w.0)) by {
            assert(ws[ws.len() - 1] == w);
        }
    }
}

proof fn lemma_category_weights_capped(fs: Seq<BehaviorFindingV>)
    requires
        forall|i: int| 0 <= i < fs.len() ==> finding_capped(#[trigger] fs[i]),
    ensures
        forall|i: int|
            0 <= i < category_weights(fs).len() ==> (#[trigger] category_weights(fs)[i]).1
                <= category_cap(category_weights(fs)[i].0),
    decreases fs.len(),
{
    if fs.len() > 0 {
        let pre = fs.drop_last();
        assert forall|i: int| 0 <= i < pre.len() implies finding_capped(#[trigger] pre[i]) by {
            assert(pre[i] == fs[i]);
        }
        lemma_category_weights_capped(pre);
        let ws = category_weights(pre);
        let f = fs.last();
        assert(finding_capped(f)) by {
            assert(fs[fs.len() - 1] == f);
        }
        let after = category_weights(fs);
        if exists|j: int| weight_at(ws, j, f.category) {
            let j = choose|j: int| weight_at(ws, j, f.category);
            assert forall|i: int| 0 <= i < after.len() implies (#[trigger] after[i]).1 <= category_cap(after[i].0) by {
                if i != j {
                    assert(after[i] == ws[i]);
                }
            }
        } else {
            assert forall|i: int| 0 <= i < after.len() implies (#[trigger] after[i]).1 <= category_cap(after[i].0) by {
                if i < ws.len() {
                    assert(after[i] == ws[i]);
                }
            }
        }
    }
}

/// Law: however many findings there are, when every finding weighs no more
/// than its category's cap, the category weights sum to at most 146.
pub proof fn lemma_weight_sum_bounded(fs: Seq<BehaviorFindingV>)
    requires
        forall|i: int| 0 <= i < fs.len() ==> finding_capped(#[trigger] fs[i]),
    ensures
        weight_sum(category_weights(fs)) <= 146,
{
    let ws = category_weights(fs);
    lemma_weight_names_unique(fs);
    lemma_category_weights_capped(fs);
    lemma_weights_within_budget(ws);
    reveal_strlit("process_injection");
    reveal_strlit("persistence");
    reveal_strlit("network");
    reveal_strlit("registry");
    reveal_strlit("process_execution");
    reveal_strlit("filesystem");
    reveal_strlit("memory");
    reveal_strlit("dynamic_loading");
    reveal_strlit("anti_debug");
    reveal_strlit("crypto");
    reveal_strlit("credential_access");
    reveal_strlit("string_indicator");
    reveal_strlit("runtime_packaging");
    let k = known_categories();
    let e = Set::<Seq<char>>::empty();
    lemma_known_distinct();
    assert(budget(k.take(0), e) == 0);
    assert(category_cap(k[0]) == 35);
    assert(k.take(1).drop_last() =~= k.take(0));
    assert(budget(k.take(1), e) == 35);
    assert(k[1] != k[0]);
    assert(category_cap(k[1]) == 35);
    assert(k.take(2).drop_last() =~= k.take(1));
    assert(budget(k.take(2), e) == 70);
    assert(k[2] != k[0]);
    assert(k[2] != k[1]);
    assert(category_cap(k[2]) == 8);
    assert(k.take(3).drop_last() =~= k.take(2));
    assert(budget(k.take(3), e) == 78);
    assert(k[3] != k[0]);
    assert(k[3] != k[1]);
    assert(k[3] != k[2]);
    assert(category_cap(k[3]) == 8);
    assert(k.take(4).drop_last() =~= k.take(3));
    assert(budget(k.take(4), e) == 86);
    assert(k[4] != k[0]);
    assert(k[4] != k[1]);
    assert(k[4] != k[2]);
    assert(k[4] != k[3]);
    assert(category_cap(k[4]) == 8);
    assert(k.take(5).drop_last() =~= k.take(4));
    assert(budget(k.take(5), e) == 94);
    assert(k[5] != k[0]);
    assert(k[5] != k[1]);
    assert(k[5] != k[2]);
    assert(k[5] != k[3]);
    assert(k[5] != k[4]);
    assert(category_cap(k[5]) == 8);
    assert(k.take(6).drop_last() =~= k.take(5));
    assert(budget(k.take(6), e) == 102);
    assert(k[6] != k[0]);
    assert(k[6] != k[1]);
    assert(k[6] != k[2]);
    assert(k[6] != k[3]);
    assert(k[6] != k[4]);
    assert(k[6] != k[5]);
    assert(category_cap(k[6]) == 8);
    assert(k.take(7).drop_last() =~= k.take(6));
    assert(budget(k.take(7), e) == 110);
    assert(k[7] != k[0]);
    assert(k[7] != k[1]);
    assert(k[7] != k[2]);
    assert(k[7] != k[3]);
    assert(k[7] != k[4]);
    assert(k[7] != k[5]);
    assert(k[7] != k[6]);
    assert(category_cap(k[7]) == 8);
    assert(k.take(8).drop_last() =~= k.take(7));
    assert(budget(k.take(8), e) == 118);
    assert(k[8] != k[0]);
    assert(k[8] != k[1]);
    assert(k[8] != k[2]);
    assert(k[8] != k[3]);
    assert(k[8] != k[4]);
    assert(k[8] != k[5]);
    assert(k[8] != k[6]);
    assert(k[8] != k[7]);
    assert(category_cap(k[8]) == 8);
    assert(k.take(9).drop_last() =~= k.take(8));
    assert(budget(k.take(9), e) == 126);
    assert(k[9] != k[0]);
    assert(k[9] != k[1]);
    assert(k[9] != k[2]);
    assert(k[9] != k[3]);
    assert(k[9] != k[4]);
    assert(k[9] != k[5]);
    assert(k[9] != k[6]);
    assert(k[9] != k[7]);
    assert(k[9] != k[8]);
    assert(category_cap(k[9]) == 8);
    assert(k.take(10).drop_last() =~= k.take(9));
    assert(budget(k.take(10), e) == 134);
    assert(k[10] != k[0]);
    assert(k[10] != k[1]);
    assert(k[10] != k[2]);
    assert(k[10] != k[3]);
    assert(k[10] != k[4]);
    assert(k[10] != k[5]);
    assert(k[10] != k[6]);
    assert(k[10] != k[7]);
    assert(k[10] != k[8]);
    assert(k[10] != k[9]);
    assert(category_cap(k[10]) == 8);
    assert(k.take(11).drop_last() =~= k.take(10));
    assert(budget(k.take(11), e) == 142);
    assert(k[11] != k[0]);
    assert(k[11] != k[1]);
    assert(k[11] != k[2]);
    assert(k[11] != k[3]);
    assert(k[11] != k[4]);
    assert(k[11] != k[5]);
    assert(k[11] != k[6]);
    assert(k[11] != k[7]);
    assert(k[11] != k[8]);
    assert(k[11] != k[9]);
    assert(k[11] != k[10]);
    assert(category_cap(k[11]) == 2);
    assert(k.take(12).drop_last() =~= k.take(11));
    assert(budget(k.take(12), e) == 144);
    assert(k[12] != k[0]);
    assert(k[12] != k[1]);
    assert(k[12] != k[2]);
    assert(k[12] != k[3]);
    assert(k[12] != k[4]);
    assert(k[12] != k[5]);
    assert(k[12] != k[6]);
    assert(k[12] != k[7]);
    assert(k[12] != k[8]);
    assert(k[12] != k[9]);
    assert(k[12] != k[10]);
    assert(k[12] != k[11]);
    assert(category_cap(k[12]) == 2);
    assert(k.take(13).drop_last() =~= k.take(12));
    assert(budget(k.take(13), e) == 146);
    assert(k.take(13) =~= k);
}

proof fn lemma_literal_weights()
    ensures
        category_cap("process_injection"@) == 35,
        category_cap("persistence"@) == 35,
        category_cap("network"@) == 8,
        category_cap("registry"@) == 8,
        category_cap("process_execution"@) == 8,
        category_cap("filesystem"@) == 8,
        category_cap("memory"@) == 8,
        category_cap("dynamic_loading"@) == 8,
        category_cap("anti_debug"@) == 8,
        category_cap("crypto"@) == 8,
        category_cap("credential_access"@) == 8,
        category_cap("string_indicator"@) == 2,
        category_cap("runtime_packaging"@) == 2,
        severity_weight("high"@) == 35,
        severity_weight("medium"@) == 8,
        severity_weight("low"@) == 2,
{
    let k = known_categories();
    lemma_known_distinct();
    assert(k[0] == "process_injection"@);
    assert(k[1] != k[0]);
    assert(k[1] == "persistence"@);
    assert(k[2] != k[0]);
    assert(k[2] != k[1]);
    assert(k[2] == "network"@);
    assert(k[3] != k[0]);
    assert(k[3] != k[1]);
    assert(k[3] != k[2]);
    assert(k[3] == "registry"@);
    assert(k[4] != k[0]);
    assert(k[4] != k[1]);
    assert(k[4] != k[2]);
    assert(k[4] != k[3]);
    assert(k[4] == "process_execution"@);
    assert(k[5] != k[0]);
    assert(k[5] != k[1]);
    assert(k[5] != k[2]);
    assert(k[5] != k[3]);
    assert(k[5] != k[4]);
    assert(k[5] == "filesystem"@);
    assert(k[6] != k[0]);
    assert(k[6] != k[1]);
    assert(k[6] != k[2]);
    assert(k[6] != k[3]);
    assert(k[6] != k[4]);
    assert(k[6] != k[5]);
    assert(k[6] == "memory"@);
    assert(k[7] != k[0]);
    assert(k[7] != k[1]);
    assert(k[7] != k[2]);
    assert(k[7] != k[3]);
    assert(k[7] != k[4]);
    assert(k[7] != k[5]);
    assert(k[7] != k[6]);
    assert(k[7] == "dynamic_loading"@);
    assert(k[8] != k[0]);
    assert(k[8] != k[1]);
    assert(k[8] != k[2]);
    assert(k[8] != k[3]);
    assert(k[8] != k[4]);
    assert(k[8] != k[5]);
    assert(k[8] != k[6]);
    assert(k[8] != k[7]);
    assert(k[8] == "anti_debug"@);
    assert(k[9] != k[0]);
    assert(k[9] != k[1]);
    assert(k[9] != k[2]);
    assert(k[9] != k[3]);
    assert(k[9] != k[4]);
    assert(k[9] != k[5]);
    assert(k[9] != k[6]);
    assert(k[9] != k[7]);
    assert(k[9] != k[8]);
    assert(k[9] == "crypto"@);
    assert(k[10] != k[0]);
    assert(k[10] != k[1]);
    assert(k[10] != k[2]);
    assert(k[10] != k[3]);
    assert(k[10] != k[4]);
    assert(k[10] != k[5]);
    assert(k[10] != k[6]);
    assert(k[10] != k[7]);
    assert(k[10] != k[8]);
    assert(k[10] != k[9]);
    assert(k[10] == "credential_access"@);
    assert(k[11] != k[0]);
    assert(k[11] != k[1]);
    assert(k[11] != k[2]);
    assert(k[11] != k[3]);
    assert(k[11] != k[4]);
    assert(k[11] != k[5]);
    assert(k[11] != k[6]);
    assert(k[11] != k[7]);
    assert(k[11] != k[8]);
    assert(k[11] != k[9]);
    assert(k[11] != k[10]);
    assert(k[11] == "string_indicator"@);
    assert(k[12] != k[0]);
    assert(k[12] != k[1]);
    assert(k[12] != k[2]);
    assert(k[12] != k[3]);
    assert(k[12] != k[4]);
    assert(k[12] != k[5]);
    assert(k[12] != k[6]);
    assert(k[12] != k[7]);
    assert(k[12] != k[8]);
    assert(k[12] != k[9]);
    assert(k[12] != k[10]);
    assert(k[12] != k[11]);
    assert(k[12] == "runtime_packaging"@);
    reveal_strlit("high");
    reveal_strlit("medium");
    reveal_strlit("low");
    assert("high"@.len() == 4 && "medium"@.len() == 6 && "low"@.len() == 3);
}

pub open spec fn insight_capped(i: ApiInsightReportV) -> bool {
    severity_weight(i.severity) <= category_cap(i.category)
}

proof fn lemma_api_class_capped(n: Seq<char>)
    ensures
        api_class(n) matches Some((c, sv, m)) ==> severity_weight(sv) <= category_cap(c),
{
    lemma_literal_weights();
    reveal_strlit("process_injection");
    reveal_strlit("persistence");
    reveal_strlit("network");
    reveal_strlit("registry");
    reveal_strlit("process_execution");
    reveal_strlit("filesystem");
    reveal_strlit("memory");
    reveal_strlit("dynamic_loading");
    reveal_strlit("anti_debug");
    reveal_strlit("crypto");
    reveal_strlit("high");
    reveal_strlit("medium");
    reveal_strlit("low");
}

proof fn lemma_insights_in_capped(library: Seq<char>, funcs: Seq<Seq<char>>)
    ensures
        forall|i: int| 0 <= i < insights_in(library, funcs).len() ==> insight_capped(#[trigger] insights_in(library, funcs)[i]),
    decreases funcs.len(),
{
    if funcs.len() > 0 {
        lemma_insights_in_capped(library, funcs.drop_last());
        lemma_api_class_capped(lower_seq(funcs.last()));
        let prev = insights_in(library, funcs.drop_last());
        let cur = insights_in(library, funcs);
        assert forall|i: int| 0 <= i < cur.len() implies insight_capped(#[trigger] cur[i]) by {
            if i < prev.len() {
                assert(cur[i] == prev[i]);
            }
        }
    }
}

proof fn lemma_insights_flat_capped(imports: Seq<ImportInfo>)
    ensures
        forall|i: int| 0 <= i < insights_flat(imports).len() ==> insight_capped(#[trigger] insights_flat(imports)[i]),
    decreases imports.len(),
{
    if imports.len() > 0 {
        lemma_insights_flat_capped(imports.drop_last());
        let a = insights_flat(imports.drop_last());
        let b = insights_in(imports.last().name@, imports.last().functions@.map_values(|s: String| s@));
        lemma_insights_in_capped(imports.last().name@, imports.last().functions@.map_values(|s: String| s@));
        assert forall|i: int| 0 <= i < (a + b).len() implies insight_capped(#[trigger] (a + b)[i]) by {
            if i >= a.len() {
                assert((a + b)[i] == b[i - a.len()]);
            }
        }
    }
}

proof fn lemma_runtime_findings_capped(rt: Seq<RuntimeMatch>)
    ensures
        forall|i: int| 0 <= i < runtime_findings(rt).len() ==> finding_capped(#[trigger] runtime_findings(rt)[i]),
    decreases rt.len(),
{
    lemma_literal_weights();
    if rt.len() > 0 {
        lemma_runtime_findings_capped(rt.drop_last());
        let prev = runtime_findings(rt.drop_last());
        let cur = runtime_findings(rt);
        assert forall|i: int| 0 <= i < cur.len() implies finding_capped(#[trigger] cur[i]) by {
            if i < prev.len() {
                assert(cur[i] == prev[i]);
            }
        }
    }
}

proof fn lemma_string_finding_capped(x: SuspiciousStringReportV)
    ensures
        finding_capped(string_finding(x)),
{
    lemma_literal_weights();
    reveal_strlit("network");
    reveal_strlit("process_execution");
    reveal_strlit("credential_access");
    reveal_strlit("filesystem");
    reveal_strlit("string_indicator");
    reveal_strlit("medium");
    reveal_strlit("low");
    reveal_strlit("high");
}

/// Law: the findings made from the classified imports of any import table,
/// from any suspicious strings and from any runtime matches have category
/// weights summing to at most 146; so the risk score's sum never wraps.
pub proof fn lemma_report_weights_bounded(
    imports: Seq<ImportInfo>,
    sus: Seq<SuspiciousStringReportV>,
    rt: Seq<RuntimeMatch>,
)
    ensures
        weight_sum(category_weights(findings_spec(api_insights_spec(imports), sus, rt))) <= 146,
{
    let flat = insights_flat(imports);
    let ins = api_insights_spec(imports);
    lemma_insights_flat_capped(imports);
    lemma_stable_sorted_elements::<ApiInsightReport>(flat);
    assert forall|i: int| 0 <= i < ins.len() implies insight_capped(#[trigger] ins[i]) by {
        assert(ins.contains(ins[i]));
        assert(stable_sorted::<ApiInsightReport>(flat).contains(ins[i]));
        let k = choose|k: int| 0 <= k < flat.len() && flat[k] == ins[i];
    }
    let pa = ins.map_values(|i: ApiInsightReportV| insight_finding(i));
    let pb = sus.map_values(|x: SuspiciousStringReportV| string_finding(x));
    let pc = runtime_findings(rt);
    let pre = pa + pb + pc;
    lemma_runtime_findings_capped(rt);
    assert forall|i: int| 0 <= i < pre.len() implies finding_capped(#[trigger] pre[i]) by {
        if i < pa.len() {
            assert(pre[i] == insight_finding(ins[i]));
            assert(insight_capped(ins[i]));
        } else if i < pa.len() + pb.len() {
            assert(pre[i] == string_finding(sus[i - pa.len()]));
            lemma_string_finding_capped(sus[i - pa.len()]);
        } else {
            assert(pre[i] == pc[i - pa.len() - pb.len()]);
        }
    }
    let fs = findings_spec(ins, sus, rt);
    lemma_stable_sorted_elements::<BehaviorFinding>(pre);
    assert forall|i: int| 0 <= i < fs.len() implies finding_capped(#[trigger] fs[i]) by {
        assert(fs.contains(fs[i]));
        assert(stable_sorted::<BehaviorFinding>(pre).contains(fs[i]));
        let k = choose|k: int| 0 <= k < pre.len() && pre[k] == fs[i];
    }
    lemma_weight_sum_bounded(fs);
}

/// Law: the risk score never exceeds 100, and stays below 70 (so the level
/// is at most "medium") unless some finding is high.
pub proof fn lemma_risk_score_bounds(fs: Seq<BehaviorFindingV>)
    ensures
        risk_score_spec(fs) <= 100,
        !has_high(fs) ==> risk_score_spec(fs) <= 69,
        !has_high(fs) ==> risk_level_spec(risk_score_spec(fs)) != "high"@,
{
    reveal_strlit("high");
    reveal_strlit("medium");
    reveal_strlit("low");
    reveal_strlit("none");
    assert("none"@[0] != "high"@[0]);
    assert("medium"@.len() != "high"@.len());
    assert("low"@.len() != "high"@.len());
}

/// How many runtime matches have a confidence of at least 70.
pub open spec fn confident_count(rt: Seq<RuntimeMatch>) -> nat
    decreases rt.len(),
{
    if rt.len() == 0 {
        0
    } else if rt.last().confidence >= 70 {
        confident_count(rt.drop_last()) + 1
    } else {
        confident_count(rt.drop_last())
    }
}

proof fn lemma_runtime_findings_len(rt: Seq<RuntimeMatch>)
    ensures
        runtime_findings(rt).len() == confident_count(rt),
    decreases rt.len(),
{
    if rt.len() > 0 {
        lemma_runtime_findings_len(rt.drop_last());
    }
}

/// The finding order (severity, then category and detail) is a strict order.
proof fn lemma_finding_order_strict()
    ensures
        strict_order::<BehaviorFinding>(),
{
    assert forall|a: BehaviorFindingV| !#[trigger] BehaviorFinding::key_lt(a, a) by {
        lemma_lex_irreflexive(a.category);
        lemma_lex_irreflexive(a.detail);
    }
    assert forall|a: BehaviorFindingV, b: BehaviorFindingV, c: BehaviorFindingV|
        #[trigger] BehaviorFinding::key_lt(a, b) && #[trigger] BehaviorFinding::key_lt(b, c) implies
        BehaviorFinding::key_lt(a, c) by {
        if lex_lt(a.category, b.category) && lex_lt(b.category, c.category) {
            lemma_lex_transitive(a.category, b.category, c.category);
        }
        if lex_lt(a.detail, b.detail) && lex_lt(b.detail, c.detail) {
            lemma_lex_transitive(a.detail, b.detail, c.detail);
        }
    }
}

/// Law: the behavior report holds one finding per classified import, per
/// suspicious string and per runtime match of confidence 70 or more, the
/// most severe first; its score is at most 100, its level is the score's
/// level, and it is "high" only when some finding is high.
pub proof fn lemma_behavior_report_laws(
    ins: Seq<ApiInsightReportV>,
    sus: Seq<SuspiciousStringReportV>,
    rt: Seq<RuntimeMatch>,
)
    ensures
        behavior_report_spec(ins, sus, rt).findings.len() == ins.len() + sus.len() + confident_count(rt),
        forall|i: int, j: int|
            0 <= i < j < behavior_report_spec(ins, sus, rt).findings.len() ==> severity_rank_spec(
                (#[trigger] behavior_report_spec(ins, sus, rt).findings[i]).severity,
            ) >= severity_rank_spec((#[trigger] behavior_report_spec(ins, sus, rt).findings[j]).severity),
        behavior_report_spec(ins, sus, rt).risk_score <= 100,
        behavior_report_spec(ins, sus, rt).risk_level == risk_level_spec(
            behavior_report_spec(ins, sus, rt).risk_score,
        ),
        behavior_report_spec(ins, sus, rt).risk_level == "high"@ ==> has_high(
            behavior_report_spec(ins, sus, rt).findings,
        ),
{
    let pre = ins.map_values(|i: ApiInsightReportV| insight_finding(i)) + sus.map_values(
        |x: SuspiciousStringReportV| string_finding(x),
    ) + runtime_findings(rt);
    let fs = findings_spec(ins, sus, rt);
    lemma_stable_sorted_elements::<BehaviorFinding>(pre);
    lemma_runtime_findings_len(rt);
    lemma_finding_order_strict();
    lemma_stable_sorted_sorted::<BehaviorFinding>(pre);
    assert forall|i: int, j: int| 0 <= i < j < fs.len() implies severity_rank_spec(
        (#[trigger] fs[i]).severity,
    ) >= severity_rank_spec((#[trigger] fs[j]).severity) by {
        assert(!BehaviorFinding::key_lt(fs[j], fs[i]));
    }
    lemma_risk_score_bounds(fs);
}

} // verus!
