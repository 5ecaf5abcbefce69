//! What holds of the machine as a whole.
//!
//! The laws of stepping there and back and of the length of the state are
//! laws of exact arithmetic: they are stated of a machine over any scalar
//! type that obeys the laws of a commutative semiring, the complex numbers
//! among them. The machine that runs computes in floating-point numbers;
//! what it computes is fixed by the same definitions, and differs from the
//! exact result by rounding.

use crate::algebra::{
    apply, conj_vector, is_square, lift, norm_sqr, products, unitary, Conjugate, Scalar,
};
use crate::gates::{table_lookup, Table};
use crate::lift::lemma_lift_size;
use crate::program::{
    has_malformed, instruction_of, line_instructions, parse_from, parse_program, render,
    render_one, strip_cr, InstructionView,
};
use crate::ring::{
    all_of_size, involutory, lemma_apply_identity, lemma_apply_product, lemma_join_involutory,
    lemma_lift_involutory, lemma_sum_single, Semiring, StarSemiring,
};
use crate::step::{basis_zero, route, step_operator, Machine};
use crate::unitary::{
    all_keep_norm, keeps_norm, lemma_join_keeps_norm, lemma_lift_unitary,
    lemma_unitary_is_isometry,
};
use crate::text::{index_below, is_whitespace, piece, words, words_from};
use vstd::arithmetic::power2::{lemma_pow2_pos, pow2};
use vstd::prelude::*;

verus! {

/// Whether the gates that an instruction uses have the property `p`, as
/// far as the table holds them: the one that the instruction names and,
/// where it names two lines, `swap`, which carries the lines together.
pub open spec fn uses_gates_with<S>(
    table: Table<S>,
    instruction: InstructionView,
    p: spec_fn(Seq<Seq<S>>) -> bool,
) -> bool {
    match instruction {
        InstructionView::Malformed => true,
        InstructionView::Single(name, _) => {
            table_lookup(table, name) matches Some(gate) ==> p(gate)
        },
        InstructionView::Double(name, _, _) => {
            &&& table_lookup(table, name) matches Some(gate) ==> p(gate)
            &&& table_lookup(table, "swap"@) matches Some(swap) ==> p(swap)
        },
    }
}

/// The program is built from gates that are their own inverses.
pub open spec fn built_from_involutions<S: Scalar>(
    table: Table<S>,
    program: Seq<InstructionView>,
) -> bool {
    forall|i: int|
        0 <= i < program.len() ==> uses_gates_with(
            table,
            #[trigger] program[i],
            |gate: Seq<Seq<S>>| involutory(gate),
        )
}

/// Where the gates that an instruction uses are their own inverses, the
/// operator of the instruction is its own inverse, and it has one row for
/// each basis state of the register.
pub proof fn lemma_step_operator_involutory<S: Semiring>(
    table: Table<S>,
    instruction: InstructionView,
    qubits: nat,
)
    requires
        uses_gates_with(table, instruction, |gate: Seq<Seq<S>>| involutory(gate)),
        step_operator(table, instruction, qubits) is Ok,
    ensures
        involutory(step_operator(table, instruction, qubits)->Ok_0),
        step_operator(table, instruction, qubits)->Ok_0.len() == pow2(qubits),
{
    match instruction {
        InstructionView::Malformed => {},
        InstructionView::Single(name, qb) => {
            let gate = table_lookup(table, name)->Some_0;
            let line = index_below(qb, qubits)->Some_0 as nat;
            lemma_lift_involutory(gate, line, qubits);
            lemma_lift_size(gate, line, qubits);
        },
        InstructionView::Double(name, qb0, qb1) => {
            let gate = table_lookup(table, name)->Some_0;
            let swap = table_lookup(table, "swap"@)->Some_0;
            let a = index_below(qb0, qubits)->Some_0;
            let b = index_below(qb1, qubits)->Some_0;
            let low = (if a < b {
                a
            } else {
                b
            }) as nat;
            let high = (if a < b {
                b
            } else {
                a
            }) as nat;
            let chain = route(gate, swap, low, high, qubits);
            let d = pow2(qubits);
            assert forall|i: int| 0 <= i < chain.len() implies is_square(#[trigger] chain[i], d)
                && involutory(chain[i]) by {
                if i < high - low {
                    let line = (high - 1 - i) as nat;
                    lemma_lift_involutory(swap, line, qubits);
                    lemma_lift_size(swap, line, qubits);
                } else {
                    lemma_lift_involutory(gate, low, qubits);
                    lemma_lift_size(gate, low, qubits);
                }
            }
            assert(all_of_size(chain, d));
            lemma_join_involutory(chain, d);
        },
    }
}

/// A step forwards and then a step backwards, in any arithmetic: the
/// counter is where it was, and the operator of the instruction has been
/// applied to the state twice.
pub proof fn law_next_prev_applies_twice<S: Scalar>(m: Machine<S>)
    requires
        m.wf(),
        m.counter < m.program.len(),
        m.operator_at(m.counter as int) is Ok,
    ensures
        m.next().prev() == (Machine {
            state: apply(
                m.operator_at(m.counter as int)->Ok_0,
                apply(m.operator_at(m.counter as int)->Ok_0, m.state),
            ),
            ..m
        }),
{
}

/// A step backwards and then a step forwards, in any arithmetic: the
/// counter is where it was, and the operator of the instruction has been
/// applied to the state twice.
pub proof fn law_prev_next_applies_twice<S: Scalar>(m: Machine<S>)
    requires
        m.wf(),
        m.counter > 0,
        m.operator_at(m.counter - 1) is Ok,
    ensures
        m.prev().next() == (Machine {
            state: apply(
                m.operator_at(m.counter - 1)->Ok_0,
                apply(m.operator_at(m.counter - 1)->Ok_0, m.state),
            ),
            ..m
        }),
{
}

/// Applying twice an operator that is its own inverse changes nothing, in
/// exact arithmetic.
pub proof fn lemma_apply_twice<S: Semiring>(op: Seq<Seq<S>>, v: Seq<S>)
    requires
        involutory(op),
        v.len() == op.len(),
    ensures
        apply(op, apply(op, v)) == v,
{
    lemma_apply_product(op, op, v);
    lemma_apply_identity(v);
}

/// Round trip, forwards first: in exact arithmetic, where the program is
/// built from gates that are their own inverses, a step forwards that is
/// carried out and then a step backwards give the machine back as it was.
pub proof fn law_next_prev_round_trip<S: Semiring>(m: Machine<S>)
    requires
        m.wf(),
        built_from_involutions(m.gates, m.program),
        m.counter < m.program.len(),
        m.operator_at(m.counter as int) is Ok,
    ensures
        m.next().prev() == m,
{
    let op = m.operator_at(m.counter as int)->Ok_0;
    lemma_step_operator_involutory(m.gates, m.program[m.counter as int], m.qubits);
    lemma_apply_twice(op, m.state);
}

/// Round trip, backwards first: in exact arithmetic, where the program is
/// built from gates that are their own inverses, a step backwards that is
/// carried out and then a step forwards give the machine back as it was.
pub proof fn law_prev_next_round_trip<S: Semiring>(m: Machine<S>)
    requires
        m.wf(),
        built_from_involutions(m.gates, m.program),
        m.counter > 0,
        m.operator_at(m.counter - 1) is Ok,
    ensures
        m.prev().next() == m,
{
    let op = m.operator_at(m.counter - 1)->Ok_0;
    lemma_step_operator_involutory(m.gates, m.program[m.counter - 1], m.qubits);
    lemma_apply_twice(op, m.state);
}

/// The program is built from unitary gates.
pub open spec fn built_from_unitaries<S: Conjugate>(
    table: Table<S>,
    program: Seq<InstructionView>,
) -> bool {
    forall|i: int|
        0 <= i < program.len() ==> uses_gates_with(
            table,
            #[trigger] program[i],
            |gate: Seq<Seq<S>>| unitary(gate),
        )
}

/// Where the gates that an instruction uses are unitary, the operator of
/// the instruction keeps the sum of the squared magnitudes of every state,
/// and it has one row for each basis state of the register.
pub proof fn lemma_step_operator_keeps_norm<S: StarSemiring>(
    table: Table<S>,
    instruction: InstructionView,
    qubits: nat,
)
    requires
        uses_gates_with(table, instruction, |gate: Seq<Seq<S>>| unitary(gate)),
        step_operator(table, instruction, qubits) is Ok,
    ensures
        keeps_norm(step_operator(table, instruction, qubits)->Ok_0),
        step_operator(table, instruction, qubits)->Ok_0.len() == pow2(qubits),
{
    match instruction {
        InstructionView::Malformed => {},
        InstructionView::Single(name, qb) => {
            let gate = table_lookup(table, name)->Some_0;
            let line = index_below(qb, qubits)->Some_0 as nat;
            lemma_lift_unitary(gate, line, qubits);
            lemma_lift_size(gate, line, qubits);
            lemma_unitary_is_isometry(lift(gate, line, qubits));
        },
        InstructionView::Double(name, qb0, qb1) => {
            let gate = table_lookup(table, name)->Some_0;
            let swap = table_lookup(table, "swap"@)->Some_0;
            let a = index_below(qb0, qubits)->Some_0;
            let b = index_below(qb1, qubits)->Some_0;
            let low = (if a < b {
                a
            } else {
                b
            }) as nat;
            let high = (if a < b {
                b
            } else {
                a
            }) as nat;
            let chain = route(gate, swap, low, high, qubits);
            let d = pow2(qubits);
            assert forall|i: int| 0 <= i < chain.len() implies keeps_norm(#[trigger] chain[i])
                && chain[i].len() == d by {
                if i < high - low {
                    let line = (high - 1 - i) as nat;
                    lemma_lift_unitary(swap, line, qubits);
                    lemma_lift_size(swap, line, qubits);
                    lemma_unitary_is_isometry(lift(swap, line, qubits));
                } else {
                    lemma_lift_unitary(gate, low, qubits);
                    lemma_lift_size(gate, low, qubits);
                    lemma_unitary_is_isometry(lift(gate, low, qubits));
                }
            }
            assert(all_keep_norm(chain, d));
            lemma_join_keeps_norm(chain, d);
        },
    }
}

/// The state in which every line is clear has squared magnitudes that sum
/// to one, in exact arithmetic.
pub proof fn law_basis_zero_normalized<S: StarSemiring>(qubits: nat)
    ensures
        norm_sqr(basis_zero::<S>(qubits)) == S::one(),
{
    let v = basis_zero::<S>(qubits);
    let terms = products(conj_vector(v), v);
    lemma_pow2_pos(qubits);
    S::conj_one();
    S::conj_zero();
    S::times_one(S::one());
    S::times_zero(S::zero());
    lemma_sum_single(terms, 0);
}

/// A step forwards keeps the sum of the squared magnitudes of the state,
/// in exact arithmetic, where the program is built from unitary gates.
pub proof fn law_next_keeps_norm<S: StarSemiring>(m: Machine<S>)
    requires
        m.wf(),
        built_from_unitaries(m.gates, m.program),
    ensures
        m.next().wf(),
        norm_sqr(m.next().state) == norm_sqr(m.state),
{
    if m.counter < m.program.len() && m.operator_at(m.counter as int) is Ok {
        lemma_step_operator_keeps_norm(m.gates, m.program[m.counter as int], m.qubits);
    }
}

/// A step backwards keeps the sum of the squared magnitudes of the state,
/// in exact arithmetic, where the program is built from unitary gates.
pub proof fn law_prev_keeps_norm<S: StarSemiring>(m: Machine<S>)
    requires
        m.wf(),
        built_from_unitaries(m.gates, m.program),
    ensures
        m.prev().wf(),
        norm_sqr(m.prev().state) == norm_sqr(m.state),
{
    if m.counter > 0 && m.operator_at(m.counter - 1) is Ok {
        lemma_step_operator_keeps_norm(m.gates, m.program[m.counter - 1], m.qubits);
    }
}

/// The machine after `k` steps forwards from the start of its program.
pub open spec fn run<S: Scalar>(m: Machine<S>, k: nat) -> Machine<S>
    decreases k,
{
    if k == 0 {
        m.reset()
    } else {
        run(m, (k - 1) as nat).next()
    }
}

/// Normalization: in exact arithmetic, where the program is built from
/// unitary gates, the squared magnitudes of the state sum to one after any
/// number of steps from the start of the program.
pub proof fn law_prefix_normalized<S: StarSemiring>(m: Machine<S>, k: nat)
    requires
        m.wf(),
        built_from_unitaries(m.gates, m.program),
    ensures
        run(m, k).wf(),
        run(m, k).gates == m.gates,
        run(m, k).program == m.program,
        norm_sqr(run(m, k).state) == S::one(),
    decreases k,
{
    if k == 0 {
        law_basis_zero_normalized::<S>(m.qubits);
    } else {
        law_prefix_normalized(m, (k - 1) as nat);
        law_next_keeps_norm(run(m, (k - 1) as nat));
    }
}

/// A word: one character or more, none of them white space.
pub open spec fn proper_word(w: Seq<char>) -> bool {
    w.len() > 0 && forall|k: int| 0 <= k < w.len() ==> !is_whitespace(#[trigger] w[k])
}

/// An instruction that is not malformed and whose words are words.
pub open spec fn proper_instruction(i: InstructionView) -> bool {
    match i {
        InstructionView::Malformed => false,
        InstructionView::Single(gate, qb) => proper_word(gate) && proper_word(qb),
        InstructionView::Double(gate, a, b) => proper_word(gate) && proper_word(a) && proper_word(
            b,
        ),
    }
}

/// What `words_from` gives are words.
pub proof fn lemma_words_proper(s: Seq<char>, from: int, cur: int)
    requires
        0 <= cur <= from <= s.len(),
        forall|k: int| cur <= k < from ==> !is_whitespace(#[trigger] s[k]),
    ensures
        forall|i: int|
            0 <= i < words_from(s, from, cur).len() ==> proper_word(
                #[trigger] words_from(s, from, cur)[i],
            ),
    decreases s.len() - from,
{
    let w = s.subrange(cur, from);
    assert forall|k: int| 0 <= k < w.len() implies !is_whitespace(#[trigger] w[k]) by {
        assert(w[k] == s[cur + k]);
    }
    if from >= s.len() {
        assert(words_from(s, from, cur) == piece(s, cur, from));
        assert forall|i: int| 0 <= i < piece(s, cur, from).len() implies proper_word(
            #[trigger] piece(s, cur, from)[i],
        ) by {
            assert(piece(s, cur, from)[i] == w);
        }
    } else if is_whitespace(s[from]) {
        assert(words_from(s, from, cur) == piece(s, cur, from) + words_from(
            s,
            from + 1,
            from + 1,
        ));
        lemma_words_proper(s, from + 1, from + 1);
        let head = piece(s, cur, from);
        let tail = words_from(s, from + 1, from + 1);
        assert forall|i: int| 0 <= i < (head + tail).len() implies proper_word(
            #[trigger] (head + tail)[i],
        ) by {
            if i < head.len() {
                assert((head + tail)[i] == w);
            } else {
                assert((head + tail)[i] == tail[i - head.len()]);
            }
        }
    } else {
        assert(words_from(s, from, cur) == words_from(s, from + 1, cur));
        lemma_words_proper(s, from + 1, cur);
    }
}

/// What `parse_from` gives is malformed or proper.
pub proof fn lemma_parse_proper(s: Seq<char>, from: int, cur: int)
    requires
        0 <= cur <= from <= s.len(),
    ensures
        forall|i: int|
            0 <= i < parse_from(s, from, cur).len() ==> (#[trigger] parse_from(s, from, cur)[i])
                is Malformed || proper_instruction(parse_from(s, from, cur)[i]),
    decreases s.len() - from,
{
    if from >= s.len() {
        let line = strip_cr(s.subrange(cur, s.len() as int));
        lemma_words_proper(line, 0, 0);
    } else if s[from] == '\n' {
        let line = strip_cr(s.subrange(cur, from));
        lemma_words_proper(line, 0, 0);
        lemma_parse_proper(s, from + 1, from + 1);
        let head = line_instructions(s.subrange(cur, from));
        let tail = parse_from(s, from + 1, from + 1);
        assert forall|i: int| 0 <= i < (head + tail).len() implies (#[trigger] (head + tail)[i])
            is Malformed || proper_instruction((head + tail)[i]) by {
            if i < head.len() {
                assert((head + tail)[i] == instruction_of(words(line)));
            } else {
                assert((head + tail)[i] == tail[i - head.len()]);
            }
        }
    } else {
        lemma_parse_proper(s, from + 1, cur);
    }
}

/// Reading words goes over characters that are not white space without
/// giving a word.
pub proof fn lemma_words_skip(s: Seq<char>, from: int, to: int, cur: int)
    requires
        0 <= from <= to <= s.len(),
        forall|k: int| from <= k < to ==> !is_whitespace(#[trigger] s[k]),
    ensures
        words_from(s, from, cur) == words_from(s, to, cur),
    decreases to - from,
{
    if from < to {
        lemma_words_skip(s, from + 1, to, cur);
    }
}

/// Reading a program goes over characters that are no line feed without
/// giving an instruction.
pub proof fn lemma_parse_skip(s: Seq<char>, from: int, to: int, cur: int)
    requires
        0 <= from <= to <= s.len(),
        forall|k: int| from <= k < to ==> #[trigger] s[k] != '\n',
    ensures
        parse_from(s, from, cur) == parse_from(s, to, cur),
    decreases to - from,
{
    if from < to {
        lemma_parse_skip(s, from + 1, to, cur);
    }
}

/// The words of two words with a space between them.
pub proof fn lemma_words_of_two(a: Seq<char>, b: Seq<char>)
    requires
        proper_word(a),
        proper_word(b),
    ensures
        words(a + seq![' '] + b) == seq![a, b],
{
    let s = a + seq![' '] + b;
    let n = a.len() as int;
    lemma_words_skip(s, 0, n, 0);
    assert(is_whitespace(s[n]));
    assert(s.subrange(0, n) =~= a);
    lemma_words_skip(s, n + 1, s.len() as int, n + 1);
    assert(s.subrange(n + 1, s.len() as int) =~= b);
    assert(piece(s, 0, n) + piece(s, n + 1, s.len() as int) =~= seq![a, b]);
}

/// The words of three words with a space between each two.
pub proof fn lemma_words_of_three(a: Seq<char>, b: Seq<char>, c: Seq<char>)
    requires
        proper_word(a),
        proper_word(b),
        proper_word(c),
    ensures
        words(a + seq![' '] + b + seq![' '] + c) == seq![a, b, c],
{
    let s = a + seq![' '] + b + seq![' '] + c;
    let n = a.len() as int;
    let m = n + 1 + b.len();
    lemma_words_skip(s, 0, n, 0);
    assert(is_whitespace(s[n]));
    assert(s.subrange(0, n) =~= a);
    lemma_words_skip(s, n + 1, m, n + 1);
    assert(is_whitespace(s[m]));
    assert(s.subrange(n + 1, m) =~= b);
    lemma_words_skip(s, m + 1, s.len() as int, m + 1);
    assert(s.subrange(m + 1, s.len() as int) =~= c);
    assert(piece(s, 0, n) + (piece(s, n + 1, m) + piece(s, m + 1, s.len() as int)) =~= seq![
        a,
        b,
        c,
    ]);
}

/// The text of a proper instruction is one line, and reading it gives the
/// instruction.
pub proof fn lemma_parse_render_one(i: InstructionView)
    requires
        proper_instruction(i),
    ensures
        render_one(i).len() > 0,
        render_one(i).last() == '\n',
        parse_program(render_one(i)) == seq![i],
{
    let s = render_one(i);
    let n = s.len() - 1;
    let line = s.subrange(0, n);
    match i {
        InstructionView::Malformed => {},
        InstructionView::Single(gate, qb) => {
            assert(line =~= gate + seq![' '] + qb);
            lemma_words_of_two(gate, qb);
            assert forall|k: int| 0 <= k < n implies #[trigger] s[k] != '\n' by {
                if k < gate.len() {
                    assert(s[k] == gate[k]);
                } else if k > gate.len() {
                    assert(s[k] == qb[k - gate.len() - 1]);
                }
            }
            assert(line.last() == qb.last());
        },
        InstructionView::Double(gate, a, b) => {
            assert(line =~= gate + seq![' '] + a + seq![' '] + b);
            lemma_words_of_three(gate, a, b);
            assert forall|k: int| 0 <= k < n implies #[trigger] s[k] != '\n' by {
                if k < gate.len() {
                    assert(s[k] == gate[k]);
                } else if k == gate.len() {
                } else if k < gate.len() + 1 + a.len() {
                    assert(s[k] == a[k - gate.len() - 1]);
                } else if k == gate.len() + 1 + a.len() {
                } else {
                    assert(s[k] == b[k - gate.len() - a.len() - 2]);
                }
            }
            assert(line.last() == b.last());
        },
    }
    lemma_parse_skip(s, 0, n, 0);
    assert(s[n] == '\n');
    assert(strip_cr(line) == line);
    assert(s.subrange(n + 1, s.len() as int) =~= Seq::<char>::empty());
    assert(parse_from(s, n + 1, n + 1) =~= Seq::<InstructionView>::empty());
    assert(line_instructions(line) + parse_from(s, n + 1, n + 1) =~= seq![i]);
}

/// Reading `u` after `t` as reading `u` alone: the places are moved by the
/// length of `t`.
pub proof fn lemma_parse_shift(t: Seq<char>, u: Seq<char>, from: int, cur: int)
    requires
        0 <= cur <= from <= u.len(),
    ensures
        parse_from(t + u, t.len() + from, t.len() + cur) == parse_from(u, from, cur),
    decreases u.len() - from,
{
    let s = t + u;
    let k = t.len() as int;
    if from >= u.len() {
        assert(s.subrange(k + cur, s.len() as int) =~= u.subrange(cur, u.len() as int));
    } else {
        assert(s[k + from] == u[from]);
        if u[from] == '\n' {
            assert(s.subrange(k + cur, k + from) =~= u.subrange(cur, from));
            lemma_parse_shift(t, u, from + 1, from + 1);
        } else {
            lemma_parse_shift(t, u, from + 1, cur);
        }
    }
}

/// Where `t` is empty or ends in a line feed, reading `t + u` gives what
/// reading `t` gives and then what reading `u` gives.
pub proof fn lemma_parse_concat(t: Seq<char>, u: Seq<char>, from: int, cur: int)
    requires
        0 <= cur <= from <= t.len(),
        t.len() == 0 || t.last() == '\n',
        forall|k: int| cur <= k < from ==> #[trigger] t[k] != '\n',
    ensures
        parse_from(t + u, from, cur) == parse_from(t, from, cur) + parse_program(u),
    decreases t.len() - from,
{
    let s = t + u;
    if from == t.len() {
        if cur < from {
            assert(t[from - 1] != '\n');
        }
        assert(t.subrange(cur, t.len() as int) =~= Seq::<char>::empty());
        lemma_parse_shift(t, u, 0, 0);
        assert(parse_from(t, from, cur) + parse_program(u) =~= parse_program(u));
    } else {
        assert(s[from] == t[from]);
        if t[from] == '\n' {
            assert(s.subrange(cur, from) =~= t.subrange(cur, from));
            lemma_parse_concat(t, u, from + 1, from + 1);
            let head = line_instructions(t.subrange(cur, from));
            assert(head + (parse_from(t, from + 1, from + 1) + parse_program(u)) =~= (head
                + parse_from(t, from + 1, from + 1)) + parse_program(u));
        } else {
            lemma_parse_concat(t, u, from + 1, cur);
        }
    }
}

/// The text of a program of proper instructions is empty or ends in a line
/// feed, and reading it gives the program.
pub proof fn law_parse_render(program: Seq<InstructionView>)
    requires
        forall|i: int| 0 <= i < program.len() ==> proper_instruction(#[trigger] program[i]),
    ensures
        render(program).len() == 0 || render(program).last() == '\n',
        parse_program(render(program)) == program,
    decreases program.len(),
{
    if program.len() == 0 {
        assert(parse_program(Seq::<char>::empty()) =~= Seq::<InstructionView>::empty());
    } else {
        let rest = program.drop_last();
        let last = program.last();
        law_parse_render(rest);
        lemma_parse_render_one(last);
        lemma_parse_concat(render(rest), render_one(last), 0, 0);
        assert(rest + seq![last] =~= program);
    }
}

/// A program that was read from a text is read again from its own text.
pub proof fn law_update_read_program(text: Seq<char>)
    requires
        !has_malformed(parse_program(text)),
    ensures
        parse_program(render(parse_program(text))) == parse_program(text),
{
    let program = parse_program(text);
    lemma_parse_proper(text, 0, 0);
    assert forall|i: int| 0 <= i < program.len() implies proper_instruction(
        #[trigger] program[i],
    ) by {
        assert(!(program[i] is Malformed));
    }
    law_parse_render(program);
}

} // verus!
