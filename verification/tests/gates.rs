use qvm::gates::{check_entries, find_entry, H_BITS};
use qvm::{standard_gates, Arity, Complex, GateEntry, GateTable, Matrix, QvmError};

fn entry(name: &str, size: usize) -> GateEntry {
    let one = Complex::new(1.0f64.to_bits(), 0);
    let zero = Complex::new(0, 0);
    GateEntry {
        name: name.to_string(),
        matrix: Matrix {
            rows: (0..size)
                .map(|i| (0..size).map(|j| if i == j { one } else { zero }).collect())
                .collect(),
        },
    }
}

fn full_entries() -> Vec<GateEntry> {
    vec![
        entry("cnot", 4),
        entry("h", 2),
        entry("i1", 2),
        entry("i2", 4),
        entry("swap", 4),
        entry("x", 2),
        entry("y", 2),
        entry("z", 2),
    ]
}

fn reals(m: &Matrix) -> Vec<Vec<(f64, f64)>> {
    m.rows
        .iter()
        .map(|row| row.iter().map(|z| (f64::from_bits(z.re), f64::from_bits(z.im))).collect())
        .collect()
}

fn names(table: &GateTable) -> Vec<String> {
    table.entries.iter().map(|e| e.name.clone()).collect()
}

#[test]
fn standard_gates_are_listed_by_name() {
    let table = standard_gates();
    assert_eq!(names(&table), vec!["cnot", "h", "i1", "i2", "swap", "x", "y", "z"]);
    assert!(check_entries(&table.entries));
}

#[test]
fn standard_gates_have_their_matrices() {
    let table = standard_gates();
    let get = |name: &str, arity: Arity| reals(table.lookup(name, arity).unwrap());
    let o = (0.0, 0.0);
    let l = (1.0, 0.0);
    let h = (f64::from_bits(H_BITS), 0.0);
    assert_eq!(get("x", Arity::Single), vec![vec![o, l], vec![l, o]]);
    assert_eq!(get("y", Arity::Single), vec![vec![o, (-0.0, -1.0)], vec![(0.0, 1.0), o]]);
    assert_eq!(get("z", Arity::Single), vec![vec![l, o], vec![o, (-1.0, -0.0)]]);
    assert_eq!(get("h", Arity::Single), vec![vec![h, h], vec![h, (-h.0, -0.0)]]);
    assert_eq!(get("i1", Arity::Single), vec![vec![l, o], vec![o, l]]);
    let swap = vec![vec![l, o, o, o], vec![o, o, l, o], vec![o, l, o, o], vec![o, o, o, l]];
    assert_eq!(get("swap", Arity::Double), swap);
    assert_eq!(get("i2", Arity::Double), swap);
    assert_eq!(
        get("cnot", Arity::Double),
        vec![vec![l, o, o, o], vec![o, l, o, o], vec![o, o, o, l], vec![o, o, l, o]]
    );
}

#[test]
fn lookup_of_an_absent_name_is_unknown_gate() {
    let table = standard_gates();
    assert_eq!(table.lookup("t", Arity::Single).err(), Some(QvmError::UnknownGate));
    assert_eq!(table.lookup("", Arity::Double).err(), Some(QvmError::UnknownGate));
    assert_eq!(table.lookup("X", Arity::Single).err(), Some(QvmError::UnknownGate));
}

#[test]
fn lookup_with_the_other_arity_is_a_mismatch() {
    let table = standard_gates();
    assert_eq!(table.lookup("x", Arity::Double).err(), Some(QvmError::GateArityMismatch));
    assert_eq!(table.lookup("cnot", Arity::Single).err(), Some(QvmError::GateArityMismatch));
    assert!(table.lookup("x", Arity::Single).is_ok());
    assert!(table.lookup("cnot", Arity::Double).is_ok());
}

#[test]
fn find_entry_gives_the_place_of_a_name() {
    let table = standard_gates();
    assert_eq!(find_entry(&table.entries, "cnot"), Some(0));
    assert_eq!(find_entry(&table.entries, "swap"), Some(4));
    assert_eq!(find_entry(&table.entries, "z"), Some(7));
    assert_eq!(find_entry(&table.entries, "sw"), None);
}

#[test]
fn check_entries_accepts_a_full_table_in_order() {
    assert!(check_entries(&full_entries()));
    let mut more = full_entries();
    more.insert(1, entry("extra", 4));
    assert!(check_entries(&more));
}

#[test]
fn check_entries_refuses_names_out_of_order_or_twice() {
    let mut swapped = full_entries();
    swapped.swap(0, 1);
    assert!(!check_entries(&swapped));
    let mut twice = full_entries();
    twice.insert(1, entry("cnot", 4));
    assert!(!check_entries(&twice));
}

#[test]
fn check_entries_refuses_a_matrix_that_is_no_gate() {
    let mut bad = full_entries();
    bad[1] = entry("h", 3);
    assert!(!check_entries(&bad));
    let mut ragged = full_entries();
    ragged[5].matrix.rows[1].pop();
    assert!(!check_entries(&ragged));
}

#[test]
fn check_entries_refuses_a_table_without_a_standard_name() {
    for missing in 0..8 {
        let mut entries = full_entries();
        entries.remove(missing);
        assert!(!check_entries(&entries));
    }
    assert!(!check_entries(&vec![]));
}

#[test]
fn serialize_writes_json_in_the_order_of_the_names() {
    let text = standard_gates().serialize();
    let places: Vec<usize> = ["\"cnot\"", "\"h\"", "\"i1\"", "\"i2\"", "\"swap\"", "\"x\"", "\"y\"", "\"z\""]
        .iter()
        .map(|name| text.find(name).unwrap())
        .collect();
    assert!(places.windows(2).all(|w| w[0] < w[1]));
    let value: serde_json::Value = serde_json::from_str(&text).unwrap();
    assert_eq!(value["x"][0][1][0].as_f64(), Some(1.0));
    assert_eq!(value["x"][0][1][1].as_f64(), Some(0.0));
    assert_eq!(value["h"][0][0][0].as_f64(), Some(0.7071067811865475));
    assert_eq!(value["cnot"][2][3][0].as_f64(), Some(1.0));
    assert!(text.contains('\n'));
}

#[test]
fn replace_reads_what_serialize_wrote() {
    let standard = standard_gates();
    let text = standard.serialize();
    let mut table = GateTable { entries: full_entries() };
    assert_eq!(table.replace(&text), Ok(()));
    assert_eq!(names(&table), names(&standard));
    for (got, want) in table.entries.iter().zip(standard.entries.iter()) {
        assert_eq!(reals(&got.matrix), reals(&want.matrix));
    }
    assert_eq!(table.serialize(), text);
}

#[test]
fn replace_takes_a_new_gate() {
    let mut table = standard_gates();
    let mut value: serde_json::Value = serde_json::from_str(&table.serialize()).unwrap();
    let s: serde_json::Value = serde_json::from_str("[[[1, 0], [0, 0]], [[0, 0], [0, 1]]]").unwrap();
    value.as_object_mut().unwrap().insert("s".to_string(), s);
    assert_eq!(table.replace(&value.to_string()), Ok(()));
    assert_eq!(names(&table), vec!["cnot", "h", "i1", "i2", "s", "swap", "x", "y", "z"]);
    let got = table.lookup("s", Arity::Single).unwrap();
    assert_eq!(
        reals(got),
        vec![vec![(1.0, 0.0), (0.0, 0.0)], vec![(0.0, 0.0), (0.0, 1.0)]]
    );
}

#[test]
fn replace_with_text_that_is_no_json_leaves_the_table() {
    let mut table = standard_gates();
    let before = table.serialize();
    for text in ["", "{", "not json", "[1, 2]", "{\"x\": 1}", "{\"x\": [[1, 0], [0, 1]]}"].iter() {
        match table.replace(text) {
            Err(QvmError::InvalidGateSpec(detail)) => assert!(!detail.is_empty()),
            other => panic!("{:?}", other),
        }
        assert_eq!(table.serialize(), before);
    }
}

#[test]
fn replace_with_an_invalid_table_leaves_the_table() {
    let mut table = standard_gates();
    let before = table.serialize();
    // No standard name at all.
    let only_t = "{\"t\": [[[1, 0], [0, 0]], [[0, 0], [1, 0]]]}";
    assert!(matches!(table.replace(only_t), Err(QvmError::InvalidGateSpec(_))));
    assert_eq!(table.serialize(), before);
    // A matrix of size 3.
    let mut value: serde_json::Value = serde_json::from_str(&before).unwrap();
    let three: serde_json::Value =
        serde_json::from_str("[[[1,0],[0,0],[0,0]],[[0,0],[1,0],[0,0]],[[0,0],[0,0],[1,0]]]").unwrap();
    value.as_object_mut().unwrap().insert("t".to_string(), three);
    assert!(matches!(table.replace(&value.to_string()), Err(QvmError::InvalidGateSpec(_))));
    assert_eq!(table.serialize(), before);
    // The name `swap` is gone.
    let mut value: serde_json::Value = serde_json::from_str(&before).unwrap();
    value.as_object_mut().unwrap().remove("swap");
    assert!(matches!(table.replace(&value.to_string()), Err(QvmError::InvalidGateSpec(_))));
    assert_eq!(table.serialize(), before);
}
