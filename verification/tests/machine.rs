use qvm::qvm::build_operator;
use qvm::{fmt_tensor, standard_gates, Complex, Instruction, QvmError, QVM};

fn amplitudes(qvm: &QVM) -> Vec<(f64, f64)> {
    qvm.state.iter().map(|z| (f64::from_bits(z.re), f64::from_bits(z.im))).collect()
}

fn close(a: &[(f64, f64)], b: &[(f64, f64)]) -> bool {
    a.len() == b.len()
        && a.iter().zip(b.iter()).all(|(x, y)| (x.0 - y.0).abs() < 1e-12 && (x.1 - y.1).abs() < 1e-12)
}

fn norm(qvm: &QVM) -> f64 {
    amplitudes(qvm).iter().map(|z| z.0 * z.0 + z.1 * z.1).sum()
}

fn run(qubits: usize, program: &str) -> QVM {
    let mut qvm = QVM::new(qubits);
    assert!(qvm.update(program));
    while qvm.counter < qvm.program.len() {
        qvm.next().unwrap();
    }
    qvm
}

fn basis(qubits: usize, index: usize) -> Vec<(f64, f64)> {
    (0..1usize << qubits).map(|i| if i == index { (1.0, 0.0) } else { (0.0, 0.0) }).collect()
}

fn operator_error(qubits: usize, line: &str) -> Option<QvmError> {
    let program = qvm::program::parse(line);
    build_operator(&standard_gates(), &program[0], qubits).err()
}

#[test]
fn a_new_machine_is_clear() {
    for qubits in 0..6 {
        let qvm = QVM::new(qubits);
        assert_eq!(qvm.qubits, qubits);
        assert_eq!(qvm.counter, 0);
        assert!(qvm.program.is_empty());
        assert_eq!(amplitudes(&qvm), basis(qubits, 0));
        assert_eq!(qvm.show_gates(), standard_gates().serialize());
    }
}

#[test]
fn bell_state_on_two_lines() {
    let qvm = run(2, "h 0\ncnot 0 1");
    let h = 1.0 / 2.0f64.sqrt();
    let state = amplitudes(&qvm);
    assert!(close(&state, &[(h, 0.0), (0.0, 0.0), (0.0, 0.0), (h, 0.0)]));
}

#[test]
fn bell_state_on_five_lines() {
    let qvm = run(5, "h 0\ncnot 0 1");
    let h = 1.0 / 2.0f64.sqrt();
    let state = amplitudes(&qvm);
    for (i, z) in state.iter().enumerate() {
        let want = if i == 0 || i == 3 { h } else { 0.0 };
        assert!((z.0 - want).abs() < 1e-12 && z.1.abs() < 1e-12);
    }
}

#[test]
fn bit_flip_and_reorder_on_three_lines() {
    let qvm = run(3, "x 0\ncnot 0 1\nswap 1 2");
    assert_eq!(amplitudes(&qvm), basis(3, 0b101));
}

#[test]
fn x_sets_the_bit_of_its_line() {
    for line in 0..4 {
        let qvm = run(4, &format!("x {}", line));
        assert_eq!(amplitudes(&qvm), basis(4, 1 << line));
    }
}

#[test]
fn cnot_is_controlled_by_the_lower_line() {
    // Whichever way round the lines are named, the lower one controls.
    assert_eq!(amplitudes(&run(3, "x 0\ncnot 0 2")), basis(3, 0b101));
    assert_eq!(amplitudes(&run(3, "x 0\ncnot 2 0")), basis(3, 0b101));
    assert_eq!(amplitudes(&run(3, "x 2\ncnot 0 2")), basis(3, 0b100));
    assert_eq!(amplitudes(&run(3, "x 2\ncnot 2 0")), basis(3, 0b100));
}

#[test]
fn i2_acts_as_swap_does() {
    assert_eq!(amplitudes(&run(3, "x 0\ni2 0 2")), amplitudes(&run(3, "x 0\nswap 0 2")));
    assert_eq!(amplitudes(&run(3, "x 0\ni2 0 2")), basis(3, 0b100));
}

#[test]
fn a_far_swap_is_a_chain_of_near_swaps() {
    let prepare = "h 0\nx 1\nh 2\ncnot 0 1\nz 2\ny 3\n";
    let far = run(4, &format!("{}swap 0 3", prepare));
    let near = run(
        4,
        &format!("{}swap 2 3\nswap 1 2\nswap 0 1\nswap 1 2\nswap 2 3", prepare),
    );
    assert_eq!(amplitudes(&far), amplitudes(&near));
    let far = run(4, &format!("{}swap 3 1", prepare));
    let near = run(4, &format!("{}swap 2 3\nswap 1 2\nswap 2 3", prepare));
    assert_eq!(amplitudes(&far), amplitudes(&near));
    assert_ne!(amplitudes(&far), amplitudes(&run(4, prepare)));
}

#[test]
fn a_far_swap_exchanges_two_bits() {
    for a in 0..5usize {
        for b in 0..5usize {
            if a != b {
                let qvm = run(5, &format!("x {}\nswap {} {}", a, a, b));
                assert_eq!(amplitudes(&qvm), basis(5, 1 << b));
            }
        }
    }
}

#[test]
fn next_at_the_end_changes_nothing() {
    let mut qvm = run(2, "h 0\nx 1");
    let before = amplitudes(&qvm);
    assert_eq!(qvm.next(), Ok(()));
    assert_eq!(qvm.counter, 2);
    assert_eq!(amplitudes(&qvm), before);
}

#[test]
fn prev_at_the_start_changes_nothing() {
    let mut qvm = QVM::new(2);
    assert!(qvm.update("h 0\nx 1"));
    assert_eq!(qvm.prev(), Ok(()));
    assert_eq!(qvm.counter, 0);
    assert_eq!(amplitudes(&qvm), basis(2, 0));
}

#[test]
fn next_and_prev_move_the_counter() {
    let mut qvm = QVM::new(2);
    assert!(qvm.update("x 0\nx 1"));
    qvm.next().unwrap();
    assert_eq!(qvm.counter, 1);
    assert_eq!(amplitudes(&qvm), basis(2, 1));
    qvm.next().unwrap();
    assert_eq!(qvm.counter, 2);
    assert_eq!(amplitudes(&qvm), basis(2, 3));
    qvm.prev().unwrap();
    assert_eq!(qvm.counter, 1);
    assert_eq!(amplitudes(&qvm), basis(2, 1));
    qvm.prev().unwrap();
    assert_eq!(qvm.counter, 0);
    assert_eq!(amplitudes(&qvm), basis(2, 0));
}

#[test]
fn operate_carries_out_the_instruction_at_the_counter() {
    let mut qvm = QVM::new(2);
    assert!(qvm.update("x 1\nx 0"));
    assert_eq!(qvm.operate(), Ok(()));
    assert_eq!(qvm.counter, 0);
    assert_eq!(amplitudes(&qvm), basis(2, 2));
}

#[test]
fn there_and_back_with_gates_that_are_their_own_inverses() {
    let program = "h 0\ny 1\ncnot 0 2\nz 2\nswap 3 0\nx 3\nh 2\ncnot 3 1\ni1 0\ni2 1 2";
    let mut qvm = QVM::new(4);
    assert!(qvm.update(program));
    for position in 0..=qvm.program.len() {
        let before = amplitudes(&qvm);
        if position < qvm.program.len() {
            qvm.next().unwrap();
            qvm.prev().unwrap();
            assert_eq!(qvm.counter, position);
            assert!(close(&amplitudes(&qvm), &before));
        }
        if position > 0 {
            qvm.prev().unwrap();
            qvm.next().unwrap();
            assert_eq!(qvm.counter, position);
            assert!(close(&amplitudes(&qvm), &before));
        }
        if position < qvm.program.len() {
            qvm.next().unwrap();
        }
    }
}

#[test]
fn a_gate_that_is_not_its_own_inverse_is_not_undone() {
    let mut qvm = QVM::new(1);
    let mut value: serde_json::Value = serde_json::from_str(&qvm.show_gates()).unwrap();
    let s: serde_json::Value = serde_json::from_str("[[[1, 0], [0, 0]], [[0, 0], [0, 1]]]").unwrap();
    value.as_object_mut().unwrap().insert("s".to_string(), s);
    assert!(qvm.set_gates(&value.to_string()));
    assert!(qvm.update("h 0\ns 0"));
    qvm.next().unwrap();
    let before = amplitudes(&qvm);
    qvm.next().unwrap();
    qvm.prev().unwrap();
    assert_eq!(qvm.counter, 1);
    assert!(!close(&amplitudes(&qvm), &before));
}

#[test]
fn the_norm_stays_one() {
    let program = "h 0\ny 1\ncnot 0 2\nz 2\nswap 3 0\nh 3\nh 2\ncnot 3 1\nx 0\nh 1\ncnot 1 0";
    let mut qvm = QVM::new(4);
    assert!(qvm.update(program));
    assert!((norm(&qvm) - 1.0).abs() < 1e-12);
    while qvm.counter < qvm.program.len() {
        qvm.next().unwrap();
        assert!((norm(&qvm) - 1.0).abs() < 1e-12);
    }
    while qvm.counter > 0 {
        qvm.prev().unwrap();
        assert!((norm(&qvm) - 1.0).abs() < 1e-12);
    }
}

#[test]
fn reset_clears_the_register_and_keeps_the_program() {
    let mut qvm = run(3, "x 0\nh 1");
    qvm.reset();
    assert_eq!(qvm.counter, 0);
    assert_eq!(amplitudes(&qvm), basis(3, 0));
    assert_eq!(qvm.read_program(), "x 0\nh 1\n");
    assert_eq!(qvm.show_gates(), standard_gates().serialize());
}

#[test]
fn update_takes_a_new_program_and_starts_again() {
    let mut qvm = run(2, "x 0\nx 1");
    assert!(qvm.update("h 1\n\ncnot 1 0\n"));
    assert_eq!(qvm.counter, 0);
    assert_eq!(amplitudes(&qvm), basis(2, 0));
    assert_eq!(
        qvm.program,
        vec![
            Instruction::Single("h".to_string(), "1".to_string()),
            Instruction::Double("cnot".to_string(), "1".to_string(), "0".to_string()),
        ]
    );
    assert_eq!(qvm.read_program(), "h 1\ncnot 1 0\n");
}

#[test]
fn update_with_a_malformed_line_changes_nothing() {
    let mut qvm = QVM::new(2);
    assert!(qvm.update("x 0\nx 1"));
    qvm.next().unwrap();
    let state = amplitudes(&qvm);
    for text in ["h", "x 0\nh", "h 0\n \nx 1", "a b c d", "x 0 1 2\nh 0"].iter() {
        assert!(!qvm.update(text));
        assert_eq!(qvm.counter, 1);
        assert_eq!(qvm.read_program(), "x 0\nx 1\n");
        assert_eq!(amplitudes(&qvm), state);
    }
}

#[test]
fn update_with_an_empty_text_gives_an_empty_program() {
    let mut qvm = run(2, "x 0");
    assert!(qvm.update(""));
    assert_eq!(qvm.program.len(), 0);
    assert_eq!(qvm.counter, 0);
    assert_eq!(qvm.read_program(), "");
}

#[test]
fn set_gates_takes_a_new_table_and_starts_again() {
    let mut qvm = run(1, "x 0");
    let mut value: serde_json::Value = serde_json::from_str(&qvm.show_gates()).unwrap();
    let x = value["x"].clone();
    value.as_object_mut().unwrap().insert("not".to_string(), x);
    assert!(qvm.set_gates(&value.to_string()));
    assert_eq!(qvm.counter, 0);
    assert_eq!(amplitudes(&qvm), basis(1, 0));
    assert_eq!(qvm.read_program(), "x 0\n");
    assert!(qvm.update("not 0"));
    qvm.next().unwrap();
    assert_eq!(amplitudes(&qvm), basis(1, 1));
}

#[test]
fn set_gates_with_invalid_text_changes_nothing() {
    let mut qvm = run(2, "x 0\nx 1");
    let table = qvm.show_gates();
    let state = amplitudes(&qvm);
    for text in ["", "{}", "{\"x\": 3}", "gates", "{\"swap\": [[[1,0]]]}"].iter() {
        assert!(!qvm.set_gates(text));
        assert_eq!(qvm.show_gates(), table);
        assert_eq!(qvm.counter, 2);
        assert_eq!(amplitudes(&qvm), state);
        assert_eq!(qvm.read_program(), "x 0\nx 1\n");
    }
}

#[test]
fn show_gates_is_read_back_by_set_gates() {
    let mut qvm = QVM::new(2);
    let text = qvm.show_gates();
    assert!(qvm.set_gates(&text));
    assert_eq!(qvm.show_gates(), text);
}

#[test]
fn an_unknown_gate_stops_the_step() {
    let mut qvm = QVM::new(2);
    assert!(qvm.update("x 0\nfoo 1"));
    qvm.next().unwrap();
    let before = amplitudes(&qvm);
    assert_eq!(qvm.next(), Err(QvmError::UnknownGate));
    assert_eq!(qvm.counter, 1);
    assert_eq!(amplitudes(&qvm), before);
    assert_eq!(operator_error(2, "foo 0 1"), Some(QvmError::UnknownGate));
}

#[test]
fn a_gate_of_the_other_arity_stops_the_step() {
    assert_eq!(operator_error(2, "cnot 0"), Some(QvmError::GateArityMismatch));
    assert_eq!(operator_error(2, "x 0 1"), Some(QvmError::GateArityMismatch));
    let mut qvm = QVM::new(2);
    assert!(qvm.update("swap 1"));
    assert_eq!(qvm.next(), Err(QvmError::GateArityMismatch));
    assert_eq!(qvm.counter, 0);
}

#[test]
fn a_line_out_of_range_stops_the_step() {
    assert_eq!(operator_error(2, "x 2"), Some(QvmError::QubitOutOfRange));
    assert_eq!(operator_error(2, "x -1"), Some(QvmError::QubitOutOfRange));
    assert_eq!(operator_error(2, "x one"), Some(QvmError::QubitOutOfRange));
    assert_eq!(operator_error(2, "cnot 0 2"), Some(QvmError::QubitOutOfRange));
    assert_eq!(operator_error(2, "cnot 2 0"), Some(QvmError::QubitOutOfRange));
    assert_eq!(operator_error(2, "cnot 5 5"), Some(QvmError::QubitOutOfRange));
    assert_eq!(operator_error(0, "x 0"), Some(QvmError::QubitOutOfRange));
    assert_eq!(operator_error(1, "swap 0 1"), Some(QvmError::QubitOutOfRange));
    assert_eq!(operator_error(2, "x 1"), None);
}

#[test]
fn the_same_line_twice_stops_the_step() {
    assert_eq!(operator_error(3, "cnot 1 1"), Some(QvmError::InvalidQubitTarget));
    assert_eq!(operator_error(3, "swap 0 +0"), Some(QvmError::InvalidQubitTarget));
    let mut qvm = QVM::new(3);
    assert!(qvm.update("x 0\nswap 2 2"));
    qvm.next().unwrap();
    assert_eq!(qvm.next(), Err(QvmError::InvalidQubitTarget));
    assert_eq!(qvm.counter, 1);
}

#[test]
fn a_malformed_instruction_stops_the_step() {
    let err = build_operator(&standard_gates(), &Instruction::Malformed, 2).err();
    assert_eq!(err, Some(QvmError::InvalidProgram));
}

#[test]
fn a_step_back_that_fails_changes_nothing() {
    let mut qvm = QVM::new(2);
    assert!(qvm.update("x 0\nx 1"));
    qvm.next().unwrap();
    qvm.next().unwrap();
    let mut value: serde_json::Value = serde_json::from_str(&qvm.show_gates()).unwrap();
    let cnot = value["cnot"].clone();
    value.as_object_mut().unwrap().insert("x".to_string(), cnot);
    let state = amplitudes(&qvm);
    qvm.gates.replace(&value.to_string()).unwrap();
    assert_eq!(qvm.prev(), Err(QvmError::GateArityMismatch));
    assert_eq!(qvm.counter, 2);
    assert_eq!(amplitudes(&qvm), state);
}

#[test]
fn a_swap_of_the_wrong_size_stops_routing() {
    let mut qvm = QVM::new(2);
    let mut value: serde_json::Value = serde_json::from_str(&qvm.show_gates()).unwrap();
    let x = value["x"].clone();
    value.as_object_mut().unwrap().insert("swap".to_string(), x);
    assert!(qvm.set_gates(&value.to_string()));
    assert!(qvm.update("cnot 0 1"));
    assert_eq!(qvm.next(), Err(QvmError::GateArityMismatch));
}

#[test]
fn fmt_tensor_labels_an_amplitude() {
    let one = Complex::new(1.0f64.to_bits(), 0);
    assert_eq!(fmt_tensor(one, 5, 8), ("|00000101>".to_string(), "1+0i".to_string()));
    let z = Complex::new(0.5f64.to_bits(), (-0.25f64).to_bits());
    assert_eq!(fmt_tensor(z, 3, 2), ("|11>".to_string(), "0.5-0.25i".to_string()));
    let want = format!("{}", num_complex::Complex64::new(0.5, -0.25));
    assert_eq!(fmt_tensor(z, 3, 2).1, want);
}

#[test]
fn fmt_tensor_hides_an_amplitude_near_zero() {
    let small = Complex::new(1e-7f64.to_bits(), (-1e-7f64).to_bits());
    assert_eq!(fmt_tensor(small, 5, 8), (String::new(), String::new()));
    assert_eq!(fmt_tensor(Complex::new(0, 0), 0, 8), (String::new(), String::new()));
}

#[test]
fn valid_tells_a_machine_that_is_well_formed() {
    let mut qvm = QVM::new(3);
    assert!(qvm.valid());
    assert!(qvm.update("h 0\nx 1"));
    qvm.next().unwrap();
    assert!(qvm.valid());
    let mut short = qvm.clone();
    short.state.pop();
    assert!(!short.valid());
    let mut far = qvm.clone();
    far.counter = 3;
    assert!(!far.valid());
    let mut large = qvm.clone();
    large.qubits = 32;
    assert!(!large.valid());
    let mut bare = qvm.clone();
    bare.gates.entries.remove(4);
    assert!(!bare.valid());
}
