use qvm::{eq, fmt_tensor, Complex, QVM};

fn run_test(prog: String) -> QVM {
    let mut qvm = QVM::new(8);
    qvm.update(&prog);
    loop {
        debug_state(qvm.state.clone());
        if qvm.counter == qvm.program.len() {
            break;
        }
        qvm.next().unwrap();
    }
    qvm
}

fn debug_state(state: Vec<Complex>) {
    println!();
    let coeffs = state
        .iter()
        .enumerate()
        .map(|(i, elem)| fmt_tensor(*elem, i, 8));

    for strings in coeffs {
        if strings.0.len() > 0 {
            println!("{} {}", strings.0, strings.1);
        }
    }
}

fn check_qubit(qvm: &QVM, bit: &str, n: f32) {
    let amplitude = qvm.state[usize::from_str_radix(bit, 2).unwrap()];
    assert!(eq(amplitude.re, (n as f64).to_bits()));
}

#[test]
fn bell() {
    let prog = "h 0
cnot 0 1
"
    .into();
    let qvm = run_test(prog);
    let n = 1.0 / 2.0_f32.sqrt();
    check_qubit(&qvm, "0", n);
    check_qubit(&qvm, "11", n);
}

#[test]
fn swaps() {
    let prog = "x 0
cnot 0 1
swap 1 2
"
    .into();
    let qvm = run_test(prog);
    check_qubit(&qvm, "101", 1.0);
}

#[test]
fn swap02() {
    let prog = "x 0
swap 0 2
swap 1 2
x 0
swap 2 0
"
    .into();
    let qvm = run_test(prog);
    check_qubit(&qvm, "110", 1.0);
}

#[test]
fn swap23() {
    let prog = "x 3
swap 2 3
x 3
swap 3 1
x 3
swap 3 0
"
    .into();
    let qvm = run_test(prog);
    check_qubit(&qvm, "111", 1.0);
}

#[test]
fn q4567() {
    let prog = "x 0
x 1
swap 5 0
swap 1 6
x 2
swap 2 7
"
    .into();
    let qvm = run_test(prog);
    check_qubit(&qvm, "11100000", 1.0);
}
