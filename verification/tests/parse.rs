//! Parsing the two JSON dialects and the XDR buffers.

use stellar_quorum_analyzer::json_input::quorum_set_map_from_json_str;
use stellar_quorum_analyzer::quorum_set_map::InternalScpQuorumSet;
use stellar_quorum_analyzer::{FbasAnalyzer, FbasError, ResourceLimiter, SolveStatus};

#[test]
fn test_parse_quorum_set_map_from_json() {
    // The compact dialect: `nodes` array with `node` / `qset` entries.
    let data = r#"{"nodes":[
        {"node":"GA","qset":{"t":3,"v":["GA","GB",{"t":2,"v":["GB","GC","GD"]}]}},
        {"node":"GB","qset":{"t":1,"v":["GA"]}}
    ]}"#;
    let map = quorum_set_map_from_json_str(data).unwrap();
    assert_eq!(map.len(), 2);
    let ga = &map.entries[0];
    assert_eq!(ga.0, "GA");
    let qset = ga.1.as_ref().unwrap();
    assert_eq!(qset.threshold, 3);
    assert_eq!(qset.validators, vec!["GA".to_string(), "GB".to_string()]);
    assert_eq!(qset.inner_sets.len(), 1);
    let inner = &qset.inner_sets[0];
    assert_eq!(inner.threshold, 2);
    assert_eq!(
        inner.validators,
        vec!["GB".to_string(), "GC".to_string(), "GD".to_string()]
    );
    assert!(inner.inner_sets.is_empty());
}

#[test]
fn test_parse_quorum_set_map_from_stellarbeats_json() {
    // The stellarbeats dialect: root array of publicKey / quorumSet.
    let data = r#"[
        {"publicKey":"GAAA","quorumSet":{"threshold":5,"validators":[],
            "innerQuorumSets":[
                {"threshold":2,"validators":["GAAA","GBBB","GCCC"],"innerQuorumSets":[]},
                {"threshold":1,"validators":["GBBB"],"innerQuorumSets":[]}
            ]}},
        {"publicKey":"GBBB","quorumSet":{"threshold":1,"validators":["GAAA"],"innerQuorumSets":[]}}
    ]"#;
    let map = quorum_set_map_from_json_str(data).unwrap();
    assert_eq!(map.len(), 2);
    let gaaa = &map.entries[0];
    assert_eq!(gaaa.0, "GAAA");
    let qset = gaaa.1.as_ref().unwrap();
    assert_eq!(qset.threshold, 5);
    assert!(qset.validators.is_empty());
    assert_eq!(qset.inner_sets.len(), 2);
    let first_inner = &qset.inner_sets[0];
    assert_eq!(first_inner.threshold, 2);
    assert_eq!(first_inner.validators.len(), 3);
    assert!(first_inner.inner_sets.is_empty());
    assert_eq!(&first_inner.validators[0], "GAAA");
}

#[test]
fn malformed_json_is_rejected() {
    assert!(matches!(
        quorum_set_map_from_json_str("not json"),
        Err(FbasError::ParseError("fail to parse to json"))
    ));
    assert!(matches!(
        quorum_set_map_from_json_str("42"),
        Err(FbasError::ParseError("root is neither an object nor an array"))
    ));
    assert!(matches!(
        quorum_set_map_from_json_str(r#"{"wrong":1}"#),
        Err(FbasError::ParseError("nodes field missing or not an array"))
    ));
    assert!(matches!(
        quorum_set_map_from_json_str(r#"{"nodes":[{"node":"GA","qset":{"v":[]}}]}"#),
        Err(FbasError::ParseError("threshold field missing or not a number"))
    ));
    assert!(matches!(
        quorum_set_map_from_json_str(r#"{"nodes":[{"node":"GA","qset":{"t":1}}]}"#),
        Err(FbasError::ParseError("v field missing or not an array"))
    ));
    assert!(matches!(
        quorum_set_map_from_json_str(r#"[{"publicKey":"GA","quorumSet":{"threshold":1,"validators":[7],"innerQuorumSets":[]}}]"#),
        Err(FbasError::ParseError("validator entry must be a string"))
    ));
}

#[test]
fn json_analysis_end_to_end() {
    // Two independent self-quorums, written in the compact dialect.
    let data = r#"{"nodes":[
        {"node":"n0","qset":{"t":1,"v":["n0"]}},
        {"node":"n1","qset":{"t":1,"v":["n1"]}}
    ]}"#;
    let mut analyzer =
        FbasAnalyzer::from_json_str(data, ResourceLimiter::unlimited()).unwrap();
    let status = analyzer.solve().unwrap();
    assert!(matches!(status, SolveStatus::SAT(_)));
    let (qa, qb) = analyzer.get_potential_split().unwrap();
    let mut ids: Vec<String> = qa.iter().chain(qb.iter()).cloned().collect();
    ids.sort();
    assert_eq!(ids, vec!["n0".to_string(), "n1".to_string()]);
}

/// Writes a quorum set map back into the compact dialect.
fn to_regular_json(entries: &[(String, Option<InternalScpQuorumSet>)]) -> String {
    fn qset_json(q: &InternalScpQuorumSet) -> String {
        let mut items: Vec<String> = q.validators.iter().map(|v| format!("{:?}", v)).collect();
        for inner in &q.inner_sets {
            items.push(qset_json(inner));
        }
        format!("{{\"t\":{},\"v\":[{}]}}", q.threshold, items.join(","))
    }
    let nodes: Vec<String> = entries
        .iter()
        .map(|(id, q)| {
            format!(
                "{{\"node\":{:?},\"qset\":{}}}",
                id,
                qset_json(q.as_ref().expect("declaration required"))
            )
        })
        .collect();
    format!("{{\"nodes\":[{}]}}", nodes.join(","))
}

#[test]
fn regular_dialect_round_trips() {
    let data = r#"{"nodes":[
        {"node":"a","qset":{"t":2,"v":["a",{"t":1,"v":["b","c"]}]}},
        {"node":"b","qset":{"t":1,"v":["b"]}},
        {"node":"c","qset":{"t":1,"v":[{"t":1,"v":["a"]}]}}
    ]}"#;
    let first = quorum_set_map_from_json_str(data).unwrap();
    let rendered = to_regular_json(&first.entries);
    let second = quorum_set_map_from_json_str(&rendered).unwrap();
    assert_eq!(first.entries.len(), second.entries.len());
    for (e1, e2) in first.entries.iter().zip(second.entries.iter()) {
        assert_eq!(e1.0, e2.0);
        assert_eq!(e1.1, e2.1);
    }
}
