use chainindex::graph::{infer_edges, infer_edges_into, Changeset};

fn s(x: &str) -> String {
    x.to_string()
}

fn pairs(addrs: &[&str]) -> Vec<(String, String)> {
    addrs.iter().map(|a| (a.to_string(), "1".to_string())).collect()
}

fn strs(addrs: &[&str]) -> Vec<String> {
    addrs.iter().map(|a| a.to_string()).collect()
}

#[test]
fn edge_upgrade_example() {
    // I = {A}, O = {B}, M = {A, C}: the seed (A,tx,B) stays at 0 and the
    // directional pair (C,tx,A) comes in at 1; the keys differ, no upgrade.
    let tx = s("tx");
    let cs = infer_edges(&tx, &pairs(&["A"]), &pairs(&["B"]), &strs(&["A", "C"]));
    assert_eq!(cs.get_level(&s("A"), &tx, &s("B")), Some(0));
    assert_eq!(cs.get_level(&s("C"), &tx, &s("A")), Some(1));
    assert_eq!(cs.get_level(&s("A"), &tx, &s("C")), None);
    assert_eq!(cs.get_level(&s("B"), &tx, &s("A")), None);
    assert_eq!(cs.entries().len(), 2);
}

#[test]
fn fallback_example() {
    // I = {A, B}, O = {C}, M = {A, B}: M_out is empty, step 3 changes
    // nothing, and the fallback reuses M_in as destinations, self-edges
    // included.
    let tx = s("t");
    let cs = infer_edges(&tx, &pairs(&["A", "B"]), &pairs(&["C"]), &strs(&["A", "B"]));
    assert_eq!(cs.get_level(&s("A"), &tx, &s("C")), Some(0));
    assert_eq!(cs.get_level(&s("B"), &tx, &s("C")), Some(0));
    assert_eq!(cs.get_level(&s("A"), &tx, &s("A")), Some(1));
    assert_eq!(cs.get_level(&s("A"), &tx, &s("B")), Some(1));
    assert_eq!(cs.get_level(&s("B"), &tx, &s("A")), Some(1));
    assert_eq!(cs.get_level(&s("B"), &tx, &s("B")), Some(1));
    assert_eq!(cs.entries().len(), 6);
}

#[test]
fn fallback_needs_vm_addresses() {
    // M empty: no fallback, only the seeds.
    let tx = s("t");
    let cs = infer_edges(&tx, &pairs(&["A"]), &pairs(&["C"]), &strs(&[]));
    assert_eq!(cs.get_level(&s("A"), &tx, &s("C")), Some(0));
    assert_eq!(cs.entries().len(), 1);
}

#[test]
fn fallback_skipped_when_step_three_changes() {
    // M_out and M_in both inhabited: step 3 records, so no fallback edges.
    let tx = s("t");
    let cs = infer_edges(&tx, &pairs(&["A"]), &pairs(&["B"]), &strs(&["A", "C"]));
    assert_eq!(cs.get_level(&s("A"), &tx, &s("A")), None);
}

#[test]
fn coinbase_marker_output_is_skipped() {
    let tx = s("t");
    let cs = infer_edges(&tx, &pairs(&["A"]), &pairs(&["x", "B"]), &strs(&[]));
    assert_eq!(cs.get_level(&s("A"), &tx, &s("x")), None);
    assert_eq!(cs.get_level(&s("A"), &tx, &s("B")), Some(0));
}

#[test]
fn replay_never_decreases_levels() {
    // Replaying the engine with the same inputs into the same changeset
    // keeps every recorded level at least as high as before.
    let tx = s("t");
    let ins = pairs(&["A"]);
    let outs = pairs(&["B"]);
    let dvm = strs(&["A", "C"]);
    let mut cs = Changeset::new();
    infer_edges_into(&mut cs, &tx, &ins, &outs, &dvm);
    let before: Vec<(String, String, String, u8)> = cs
        .entries()
        .iter()
        .map(|e| (e.src.clone(), e.txid.clone(), e.dst.clone(), e.level))
        .collect();
    infer_edges_into(&mut cs, &tx, &ins, &outs, &dvm);
    for (src, txid, dst, level) in before {
        let after = cs.get_level(&src, &txid, &dst).expect("key must survive a replay");
        assert!(after >= level);
    }
}
