//! The report of `--doctor`: the health of the cache database, as lines of
//! text. Reading the database is done by the caller.

use vstd::prelude::*;
use vstd::string::StringSliceAdditionalSpecFns;
use vstd::utf8::{decode_utf8, encode_utf8, is_char_boundary};
use crate::text::{decimal, decimal_string};

verus! {

/// Whether a table exists, and how many rows it has when they could be counted.
#[derive(Debug, Clone, Copy, PartialEq, Eq, Structural)]
pub struct TableInfo {
    pub exists: bool,
    pub row_count: Option<i64>,
}

/// What the diagnostics of the cache found.
#[derive(Debug, Clone)]
pub struct DiagnosticResults {
    pub quick_check: String,
    pub schema_version: Option<String>,
    /// By table name; the first entry of a name counts.
    pub tables: Vec<(String, TableInfo)>,
    /// By index name; the first entry of a name counts.
    pub indexes: Vec<(String, bool)>,
    pub last_scanned_ref_oid: Option<String>,
    pub coverage_since_utc: Option<String>,
    pub coverage_since_oid: Option<String>,
    pub coverage_valid: Option<bool>,
    pub is_shallow: Option<bool>,
    pub integrity_check: Option<String>,
}

/// The result of `PRAGMA quick_check` as reported: `ok`, or `FAILED: ` and
/// what SQLite said.
pub fn quick_check_text(result: &str) -> (r: String)
    ensures
        result@ == "ok"@ ==> r@ == "ok"@,
        result@ != "ok"@ ==> r@ == "FAILED: "@ + result@,
{
    let t = result.to_string();
    let ok = "ok".to_string();
    if t == ok {
        ok
    } else {
        let mut m = "FAILED: ".to_string();
        m.append(result);
        m
    }
}

/// A signed number in decimal.
pub open spec fn signed_decimal(n: i64) -> Seq<char> {
    if n < 0 {
        "-"@ + decimal((-(n as int)) as nat)
    } else {
        decimal(n as nat)
    }
}

fn signed_decimal_string(n: i64) -> (r: String)
    ensures
        r@ == signed_decimal(n),
{
    if n < 0 {
        let m: u64 = if n == i64::MIN {
            9223372036854775808u64
        } else {
            (-n) as u64
        };
        let mut s = "-".to_string();
        s.append(decimal_string(m).as_str());
        s
    } else {
        decimal_string(n as u64)
    }
}

/// The first entry of a name.
pub open spec fn first_entry<T>(entries: Seq<(String, T)>, name: Seq<char>) -> Option<T>
    decreases entries.len(),
{
    if entries.len() == 0 {
        None
    } else if entries[0].0@ == name {
        Some(entries[0].1)
    } else {
        first_entry(entries.drop_first(), name)
    }
}

fn find_table(entries: &Vec<(String, TableInfo)>, name: &str) -> (r: Option<TableInfo>)
    ensures
        r == first_entry(entries@, name@),
{
    let key = name.to_string();
    let mut k: usize = 0;
    assert(entries@.skip(0) == entries@);
    while k < entries.len()
        invariant
            k <= entries@.len(),
            key@ == name@,
            first_entry(entries@, name@) == first_entry(entries@.skip(k as int), name@),
        decreases entries.len() - k,
    {
        assert(entries@.skip(k as int).drop_first() == entries@.skip(k as int + 1));
        if entries[k].0 == key {
            return Some(entries[k].1);
        }
        k = k + 1;
    }
    None
}

fn find_index(entries: &Vec<(String, bool)>, name: &str) -> (r: Option<bool>)
    ensures
        r == first_entry(entries@, name@),
{
    let key = name.to_string();
    let mut k: usize = 0;
    assert(entries@.skip(0) == entries@);
    while k < entries.len()
        invariant
            k <= entries@.len(),
            key@ == name@,
            first_entry(entries@, name@) == first_entry(entries@.skip(k as int), name@),
        decreases entries.len() - k,
    {
        assert(entries@.skip(k as int).drop_first() == entries@.skip(k as int + 1));
        if entries[k].0 == key {
            return Some(entries[k].1);
        }
        k = k + 1;
    }
    None
}

/// The line of a table: missing, or existing with its row count if known.
pub open spec fn table_line(name: Seq<char>, info: Option<TableInfo>) -> Seq<Seq<char>> {
    match info {
        None => Seq::empty(),
        Some(t) => if t.exists {
            match t.row_count {
                Some(c) => seq!["  "@ + name + ": exists ("@ + signed_decimal(c) + " rows)"@],
                None => seq!["  "@ + name + ": exists (unable to count rows)"@],
            }
        } else {
            seq!["  "@ + name + ": missing"@]
        },
    }
}

/// The line of an index: exists or missing.
pub open spec fn index_line(name: Seq<char>, exists: Option<bool>) -> Seq<Seq<char>> {
    match exists {
        None => Seq::empty(),
        Some(true) => seq!["  "@ + name + ": exists"@],
        Some(false) => seq!["  "@ + name + ": missing"@],
    }
}

/// The first 12 bytes of an object id, or all of it when shorter.
pub open spec fn short_oid_text(oid: Seq<char>) -> Seq<char> {
    let b = encode_utf8(oid);
    if b.len() >= 12 {
        decode_utf8(b.take(12))
    } else {
        oid
    }
}

/// An object id that can be cut after its 12th byte.
pub open spec fn oid_cuttable(oid: Seq<char>) -> bool {
    encode_utf8(oid).len() < 12 || is_char_boundary(encode_utf8(oid), 12)
}

/// A value line of the coverage section, with its fallback text.
pub open spec fn value_line(label: Seq<char>, value: Option<Seq<char>>, fallback: Seq<char>) -> Seq<char> {
    match value {
        Some(v) => "  "@ + label + ": "@ + v,
        None => "  "@ + label + ": "@ + fallback,
    }
}

pub open spec fn bool_text(b: bool) -> Seq<char> {
    if b {
        "true"@
    } else {
        "false"@
    }
}

/// The schema section.
pub open spec fn schema_text(v: Option<String>) -> Seq<Seq<char>> {
    match v {
        Some(s) => if s@ == "1"@ {
            seq!["  schema_version: "@ + s@]
        } else {
            seq!["  schema_version: "@ + s@, "  warning: expected schema_version=1, found "@ + s@]
        },
        None => seq!["  schema_version: not found or unreadable"@],
    }
}

/// The coverage section.
pub open spec fn coverage_section(r: DiagnosticResults) -> Seq<Seq<char>> {
    seq![
        value_line(
            "last_scanned_ref_oid"@,
            match r.last_scanned_ref_oid {
                Some(o) => Some(short_oid_text(o@)),
                None => None,
            },
            "not set (no scans yet)"@,
        ),
        value_line(
            "coverage_since_utc"@,
            match r.coverage_since_utc {
                Some(o) => Some(o@),
                None => None,
            },
            "not set"@,
        ),
        value_line(
            "coverage_valid"@,
            match r.coverage_valid {
                Some(b) => Some(bool_text(b)),
                None => None,
            },
            "not set"@,
        ),
        match r.is_shallow {
            Some(true) => "  is_shallow: true (coverage bounded)"@,
            Some(false) => "  is_shallow: false"@,
            None => "  is_shallow: not set"@,
        },
        value_line(
            "coverage_since_oid"@,
            match r.coverage_since_oid {
                Some(o) => Some(o@),
                None => None,
            },
            "not set"@,
        ),
    ]
}

/// The whole report, line by line.
pub open spec fn diagnostic_text(r: DiagnosticResults, deep: bool) -> Seq<Seq<char>> {
    let t = r.tables@;
    let ix = r.indexes@;
    seq!["Database integrity:"@, "  PRAGMA quick_check: "@ + r.quick_check@, ""@, "Schema:"@]
        + schema_text(r.schema_version) + seq![""@, "Tables:"@] + table_line(
        "meta"@,
        first_entry(t, "meta"@),
    ) + table_line("file"@, first_entry(t, "file"@)) + table_line(
        "commit"@,
        first_entry(t, "commit"@),
    ) + table_line("fileset"@, first_entry(t, "fileset"@)) + table_line(
        "signal"@,
        first_entry(t, "signal"@),
    ) + seq![""@, "Indexes:"@] + index_line("signal_time"@, first_entry(ix, "signal_time"@))
        + index_line("signal_culprit"@, first_entry(ix, "signal_culprit"@)) + seq![
        ""@,
        "Coverage:"@,
    ] + coverage_section(r) + if deep {
        seq![
            ""@,
            "Deep checks (--deep):"@,
            match r.integrity_check {
                Some(s) => "  PRAGMA integrity_check: "@ + s@,
                None => "  PRAGMA integrity_check: not run"@,
            },
        ]
    } else {
        Seq::empty()
    }
}

/// The texts of a list of strings.
pub open spec fn views(v: Seq<String>) -> Seq<Seq<char>> {
    v.map_values(|s: String| s@)
}

fn push_line(out: &mut Vec<String>, line: String)
    ensures
        views(final(out)@) == views(old(out)@).push(line@),
{
    out.push(line);
    assert(views(final(out)@) =~= views(old(out)@).push(line@));
}

fn push_str(out: &mut Vec<String>, line: &str)
    ensures
        views(final(out)@) == views(old(out)@).push(line@),
{
    push_line(out, line.to_string());
}

fn push_table_line(out: &mut Vec<String>, name: &str, info: Option<TableInfo>)
    ensures
        views(final(out)@) == views(old(out)@) + table_line(name@, info),
{
    match info {
        None => {
            assert(views(old(out)@) + table_line(name@, info) =~= views(old(out)@));
        },
        Some(t) => {
            let mut m = "  ".to_string();
            m.append(name);
            if t.exists {
                match t.row_count {
                    Some(c) => {
                        m.append(": exists (");
                        m.append(signed_decimal_string(c).as_str());
                        m.append(" rows)");
                    },
                    None => {
                        m.append(": exists (unable to count rows)");
                    },
                }
            } else {
                m.append(": missing");
            }
            push_line(out, m);
            assert(views(final(out)@) =~= views(old(out)@) + table_line(name@, info));
        },
    }
}

fn push_index_line(out: &mut Vec<String>, name: &str, exists: Option<bool>)
    ensures
        views(final(out)@) == views(old(out)@) + index_line(name@, exists),
{
    match exists {
        None => {
            assert(views(old(out)@) + index_line(name@, exists) =~= views(old(out)@));
        },
        Some(e) => {
            let mut m = "  ".to_string();
            m.append(name);
            if e {
                m.append(": exists");
            } else {
                m.append(": missing");
            }
            push_line(out, m);
            assert(views(final(out)@) =~= views(old(out)@) + index_line(name@, exists));
        },
    }
}

fn value_string(label: &str, value: Option<&str>, fallback: &str) -> (r: String)
    ensures
        r@ == value_line(
            label@,
            match value {
                Some(v) => Some(v@),
                None => None,
            },
            fallback@,
        ),
{
    let mut m = "  ".to_string();
    m.append(label);
    m.append(": ");
    match value {
        Some(v) => m.append(v),
        None => m.append(fallback),
    }
    m
}

/// The first 12 bytes of an object id, or all of it when shorter.
pub fn short_oid(oid: &str) -> (r: String)
    requires
        oid_cuttable(oid@),
    ensures
        r@ == short_oid_text(oid@),
{
    if oid.as_bytes().len() >= 12 {
        let (head, _) = oid.split_at(12);
        proof {
            vstd::utf8::encode_utf8_decode_utf8(head@);
            assert(head.spec_bytes() == encode_utf8(oid@).take(12));
        }
        head.to_string()
    } else {
        oid.to_string()
    }
}

fn push_pair(out: &mut Vec<String>, a: &str, b: &str)
    ensures
        views(final(out)@) == views(old(out)@) + seq![a@, b@],
{
    push_str(out, a);
    push_str(out, b);
    assert(views(final(out)@) =~= views(old(out)@) + seq![a@, b@]);
}

fn push_intro(out: &mut Vec<String>, quick_check: &String)
    ensures
        views(final(out)@) == views(old(out)@) + seq![
            "Database integrity:"@,
            "  PRAGMA quick_check: "@ + quick_check@,
            ""@,
            "Schema:"@,
        ],
{
    push_str(out, "Database integrity:");
    let mut qc = "  PRAGMA quick_check: ".to_string();
    qc.append(quick_check.as_str());
    push_line(out, qc);
    push_str(out, "");
    push_str(out, "Schema:");
    assert(views(final(out)@) =~= views(old(out)@) + seq![
        "Database integrity:"@,
        "  PRAGMA quick_check: "@ + quick_check@,
        ""@,
        "Schema:"@,
    ]);
}

fn push_schema(out: &mut Vec<String>, version: &Option<String>)
    ensures
        views(final(out)@) == views(old(out)@) + schema_text(*version),
{
    match version {
        Some(v) => {
            let mut m = "  schema_version: ".to_string();
            m.append(v.as_str());
            push_line(out, m);
            let one = "1".to_string();
            if *v != one {
                let mut w = "  warning: expected schema_version=1, found ".to_string();
                w.append(v.as_str());
                push_line(out, w);
            }
        },
        None => {
            push_str(out, "  schema_version: not found or unreadable");
        },
    }
    assert(views(final(out)@) =~= views(old(out)@) + schema_text(*version));
}

fn push_coverage(out: &mut Vec<String>, results: &DiagnosticResults)
    requires
        results.last_scanned_ref_oid matches Some(o) ==> oid_cuttable(o@),
    ensures
        views(final(out)@) == views(old(out)@) + coverage_section(*results),
{
    let short = match &results.last_scanned_ref_oid {
        Some(o) => Some(short_oid(o.as_str())),
        None => None,
    };
    let l1 = match &short {
        Some(s) => value_string("last_scanned_ref_oid", Some(s.as_str()), "not set (no scans yet)"),
        None => value_string("last_scanned_ref_oid", None, "not set (no scans yet)"),
    };
    push_line(out, l1);
    let l2 = match &results.coverage_since_utc {
        Some(s) => value_string("coverage_since_utc", Some(s.as_str()), "not set"),
        None => value_string("coverage_since_utc", None, "not set"),
    };
    push_line(out, l2);
    let l3 = match results.coverage_valid {
        Some(true) => value_string("coverage_valid", Some("true"), "not set"),
        Some(false) => value_string("coverage_valid", Some("false"), "not set"),
        None => value_string("coverage_valid", None, "not set"),
    };
    push_line(out, l3);
    match results.is_shallow {
        Some(true) => push_str(out, "  is_shallow: true (coverage bounded)"),
        Some(false) => push_str(out, "  is_shallow: false"),
        None => push_str(out, "  is_shallow: not set"),
    }
    let l5 = match &results.coverage_since_oid {
        Some(s) => value_string("coverage_since_oid", Some(s.as_str()), "not set"),
        None => value_string("coverage_since_oid", None, "not set"),
    };
    push_line(out, l5);
    assert(views(final(out)@) =~= views(old(out)@) + coverage_section(*results));
}

fn push_deep(out: &mut Vec<String>, results: &DiagnosticResults, deep: bool)
    ensures
        views(final(out)@) == views(old(out)@) + if deep {
            seq![
                ""@,
                "Deep checks (--deep):"@,
                match results.integrity_check {
                    Some(s) => "  PRAGMA integrity_check: "@ + s@,
                    None => "  PRAGMA integrity_check: not run"@,
                },
            ]
        } else {
            Seq::empty()
        },
{
    if deep {
        push_str(out, "");
        push_str(out, "Deep checks (--deep):");
        match &results.integrity_check {
            Some(s) => {
                let mut m = "  PRAGMA integrity_check: ".to_string();
                m.append(s.as_str());
                push_line(out, m);
            },
            None => push_str(out, "  PRAGMA integrity_check: not run"),
        }
        assert(views(final(out)@) =~= views(old(out)@) + seq![
            ""@,
            "Deep checks (--deep):"@,
            match results.integrity_check {
                Some(s) => "  PRAGMA integrity_check: "@ + s@,
                None => "  PRAGMA integrity_check: not run"@,
            },
        ]);
    } else {
        assert(views(final(out)@) =~= views(old(out)@) + Seq::<Seq<char>>::empty());
    }
}

/// The report of `--doctor` on the diagnostics, one string per line.
pub fn diagnostic_lines(results: &DiagnosticResults, deep: bool) -> (r: Vec<String>)
    requires
        results.last_scanned_ref_oid matches Some(o) ==> oid_cuttable(o@),
    ensures
        views(r@) == diagnostic_text(*results, deep),
        ({
            let k = r@.len() - 3 - (if deep { 3int } else { 0int });
            &&& 0 <= k < r@.len()
            &&& r@[k]@ == "  coverage_valid: "@ + match results.coverage_valid {
                Some(true) => "true"@,
                Some(false) => "false"@,
                None => "not set"@,
            }
        }),
{
    proof {
        lemma_report_shows_coverage_flag(*results, deep);
    }
    let mut out: Vec<String> = Vec::new();
    push_intro(&mut out, &results.quick_check);
    assert(views(out@) =~= seq![
        "Database integrity:"@,
        "  PRAGMA quick_check: "@ + results.quick_check@,
        ""@,
        "Schema:"@,
    ]);
    push_schema(&mut out, &results.schema_version);
    push_pair(&mut out, "", "Tables:");
    push_table_line(&mut out, "meta", find_table(&results.tables, "meta"));
    push_table_line(&mut out, "file", find_table(&results.tables, "file"));
    push_table_line(&mut out, "commit", find_table(&results.tables, "commit"));
    push_table_line(&mut out, "fileset", find_table(&results.tables, "fileset"));
    push_table_line(&mut out, "signal", find_table(&results.tables, "signal"));
    push_pair(&mut out, "", "Indexes:");
    push_index_line(&mut out, "signal_time", find_index(&results.indexes, "signal_time"));
    push_index_line(&mut out, "signal_culprit", find_index(&results.indexes, "signal_culprit"));
    push_pair(&mut out, "", "Coverage:");
    push_coverage(&mut out, results);
    push_deep(&mut out, results, deep);
    proof {
        let k = out@.len() - 3 - (if deep { 3int } else { 0int });
        assert(views(out@)[k] == out@[k]@);
    }
    out
}


/// The report shows the stored coverage flag: counted from the end (before
/// the deep-check lines, when asked for), its third coverage line reads
/// `  coverage_valid: true`, `false` or `not set`, as the flag is.
#[verifier::spinoff_prover]
pub proof fn lemma_report_shows_coverage_flag(r: DiagnosticResults, deep: bool)
    ensures
        ({
            let t = diagnostic_text(r, deep);
            let k = t.len() - 3 - (if deep { 3int } else { 0int });
            &&& 0 <= k < t.len()
            &&& t[k] == "  coverage_valid: "@ + match r.coverage_valid {
                Some(true) => "true"@,
                Some(false) => "false"@,
                None => "not set"@,
            }
        }),
{
    reveal_strlit("  ");
    reveal_strlit("coverage_valid");
    reveal_strlit(": ");
    reveal_strlit("  coverage_valid: ");
    let t = diagnostic_text(r, deep);
    let cs = coverage_section(r);
    let v = match r.coverage_valid {
        Some(true) => "true"@,
        Some(false) => "false"@,
        None => "not set"@,
    };
    assert(cs.len() == 5);
    assert("  "@ + "coverage_valid"@ + ": "@ + v =~= "  coverage_valid: "@ + v);
    assert(cs[2] == "  coverage_valid: "@ + v);
}

/// The report determines the stored coverage flag: two results whose
/// reports are the same have the same flag.
pub proof fn lemma_report_determines_coverage_flag(r1: DiagnosticResults, r2: DiagnosticResults, deep: bool)
    requires
        diagnostic_text(r1, deep) == diagnostic_text(r2, deep),
    ensures
        r1.coverage_valid == r2.coverage_valid,
{
    reveal_strlit("true");
    reveal_strlit("false");
    reveal_strlit("not set");
    reveal_strlit("  coverage_valid: ");
    lemma_report_shows_coverage_flag(r1, deep);
    lemma_report_shows_coverage_flag(r2, deep);
    let t = diagnostic_text(r1, deep);
    let k = t.len() - 3 - (if deep { 3int } else { 0int });
    let line = t[k];
    if r1.coverage_valid != r2.coverage_valid {
        assert(line.len() == 18 + match r1.coverage_valid {
            Some(true) => 4int,
            Some(false) => 5int,
            None => 7int,
        });
        assert(line.len() == 18 + match r2.coverage_valid {
            Some(true) => 4int,
            Some(false) => 5int,
            None => 7int,
        });
    }
}

} // verus!
