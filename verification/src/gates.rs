//! A table of gates: the matrices of the gates, each under its name.
//!
//! The table is a list ordered by name, so that no name stands twice and
//! the text it is written out as always has the same order.

use crate::algebra::{is_square, Scalar};
use crate::complex::{c0, c1, ci, Complex, Real, ONE_BITS};
use crate::error::QvmError;
use crate::lift::{vecify, vecify2};
use crate::matrix::Matrix;
use crate::text::{
    lemma_precedes_irreflexive, lemma_precedes_transitive, name_precedes, precedes, same_text,
};
use num_complex::Complex64;
use std::collections::BTreeMap;
use vstd::prelude::*;

verus! {

/// The encoding of `1 / sqrt(2)`, as division by the square root of two
/// rounds it.
pub const H_BITS: u64 = 0x3fe6_a09e_667f_3bcc;

/// A gate under its name.
#[derive(Clone, Debug)]
pub struct GateEntry {
    pub name: String,
    pub matrix: Matrix,
}

/// The gates, ordered by name.
#[derive(Clone, Debug)]
pub struct GateTable {
    pub entries: Vec<GateEntry>,
}

/// How many lines a gate acts on.
#[derive(Clone, Copy, Debug, PartialEq, Eq, Structural)]
pub enum Arity {
    /// One line: a matrix of size 2.
    Single,
    /// Two lines: a matrix of size 4.
    Double,
}

impl Arity {
    /// The size of the matrix of a gate of this arity.
    pub open spec fn size(self) -> nat {
        match self {
            Arity::Single => 2,
            Arity::Double => 4,
        }
    }
}

/// A table as contracts see it: names and matrices, in order.
pub type Table<S> = Seq<(Seq<char>, Seq<Seq<S>>)>;

/// A table of matrices of complex numbers.
pub type TableView = Table<Complex>;

/// The names and matrices of a list of entries.
pub open spec fn entries_view(entries: Seq<GateEntry>) -> TableView {
    Seq::new(entries.len(), |i: int| (entries[i].name@, entries[i].matrix@))
}

/// The matrix that stands under `name`, if any does: that of the first
/// entry with this name.
pub open spec fn table_lookup<S>(t: Table<S>, name: Seq<char>) -> Option<Seq<Seq<S>>>
    decreases t.len(),
{
    if t.len() == 0 {
        None
    } else if t[0].0 == name {
        Some(t[0].1)
    } else {
        table_lookup(t.drop_first(), name)
    }
}

/// A gate is a square matrix of size 2 or of size 4.
pub open spec fn gate_sized(m: Seq<Seq<Complex>>) -> bool {
    is_square(m, 2) || is_square(m, 4)
}

/// Each name comes before the next one.
pub open spec fn table_sorted(t: TableView) -> bool {
    forall|i: int, j: int|
        #![trigger t[i], t[j]]
        0 <= i && j == i + 1 && j < t.len() ==> name_precedes(t[i].0, t[j].0)
}

/// Every matrix is a gate.
pub open spec fn table_sized(t: TableView) -> bool {
    forall|i: int| 0 <= i < t.len() ==> gate_sized((#[trigger] t[i]).1)
}

/// The names that every table holds are there.
pub open spec fn table_complete(t: TableView) -> bool {
    &&& table_lookup(t, "cnot"@) is Some
    &&& table_lookup(t, "h"@) is Some
    &&& table_lookup(t, "i1"@) is Some
    &&& table_lookup(t, "i2"@) is Some
    &&& table_lookup(t, "swap"@) is Some
    &&& table_lookup(t, "x"@) is Some
    &&& table_lookup(t, "y"@) is Some
    &&& table_lookup(t, "z"@) is Some
}

/// What holds of every gate table: its names are in order, its matrices
/// are gates, and the names `cnot`, `h`, `i1`, `i2`, `swap`, `x`, `y` and `z`
/// are among them.
pub open spec fn valid_table(t: TableView) -> bool {
    table_sorted(t) && table_sized(t) && table_complete(t)
}

impl View for GateTable {
    type V = TableView;

    open spec fn view(&self) -> TableView {
        entries_view(self.entries@)
    }
}

/// Looking a name up from entry `i` on finds what looking it up in the
/// whole list finds, where no entry before `i` has the name.
pub proof fn lemma_lookup_skip<S>(t: Table<S>, name: Seq<char>, i: int)
    requires
        0 <= i <= t.len(),
        forall|k: int| 0 <= k < i ==> (#[trigger] t[k]).0 != name,
    ensures
        table_lookup(t, name) == table_lookup(t.skip(i), name),
    decreases i,
{
    if i == 0 {
        assert(t.skip(0) =~= t);
    } else {
        lemma_lookup_skip(t, name, i - 1);
        assert(t.skip(i - 1).drop_first() =~= t.skip(i));
    }
}

/// In a table whose names are in order, an earlier name comes before every
/// later one.
pub proof fn lemma_sorted_pairwise(t: TableView, i: int, j: int)
    requires
        table_sorted(t),
        0 <= i < j < t.len(),
    ensures
        name_precedes(t[i].0, t[j].0),
    decreases j - i,
{
    if j > i + 1 {
        lemma_sorted_pairwise(t, i, j - 1);
        assert(name_precedes(t[j - 1].0, t[j].0));
        lemma_precedes_transitive(t[i].0, t[j - 1].0, t[j].0);
    }
}

/// In a table whose names are in order no name stands twice, and every
/// entry is found under its name.
pub proof fn law_entries_found(t: TableView, i: int)
    requires
        table_sorted(t),
        0 <= i < t.len(),
    ensures
        forall|j: int| 0 <= j < t.len() && j != i ==> (#[trigger] t[j]).0 != t[i].0,
        table_lookup(t, t[i].0) == Some(t[i].1),
{
    assert forall|j: int| 0 <= j < t.len() && j != i implies (#[trigger] t[j]).0 != t[i].0 by {
        lemma_precedes_irreflexive(t[i].0);
        if j < i {
            lemma_sorted_pairwise(t, j, i);
        } else {
            lemma_sorted_pairwise(t, i, j);
        }
    }
    lemma_lookup_skip(t, t[i].0, i);
    assert(t.skip(i)[0] == t[i]);
}

/// The place of `name` among `entries`, if it is there.
pub fn find_entry(entries: &Vec<GateEntry>, name: &str) -> (r: Option<usize>)
    ensures
        match r {
            Some(i) => i < entries@.len() && entries@[i as int].name@ == name@ && table_lookup(
                entries_view(entries@),
                name@,
            ) == Some(entries@[i as int].matrix@),
            None => table_lookup(entries_view(entries@), name@) is None,
        },
{
    let ghost t = entries_view(entries@);
    let mut i: usize = 0;
    while i < entries.len()
        invariant
            t == entries_view(entries@),
            i <= entries@.len(),
            forall|k: int| 0 <= k < i ==> (#[trigger] t[k]).0 != name@,
        decreases entries@.len() - i,
    {
        proof {
            lemma_lookup_skip(t, name@, i as int);
        }
        if same_text(entries[i].name.as_str(), name) {
            assert(t.skip(i as int)[0] == t[i as int]);
            return Some(i);
        }
        i += 1;
    }
    proof {
        lemma_lookup_skip(t, name@, i as int);
    }
    None
}

/// The scalars, besides zero and one, that the standard gates are written
/// with.
pub ghost struct Units<S> {
    /// `1 / sqrt(2)`.
    pub h: S,
    /// `-1 / sqrt(2)`.
    pub minus_h: S,
    /// The imaginary unit.
    pub i: S,
    /// The imaginary unit, negated.
    pub minus_i: S,
    /// Minus one.
    pub minus_one: S,
}

/// The units in floating-point numbers: `1 / sqrt(2)` as `H_BITS` encodes
/// it, and each negated number by its flipped sign bits.
pub open spec fn float_units() -> Units<Complex> {
    let h = Complex { re: H_BITS, im: 0 };
    let i = Complex { re: 0, im: ONE_BITS };
    Units {
        h,
        minus_h: h.negated(),
        i,
        minus_i: i.negated(),
        minus_one: Complex::one().negated(),
    }
}

/// Controlled not: the second bit of the pair is flipped where the first
/// is set.
pub open spec fn cnot_gate<S: Scalar>() -> Seq<Seq<S>> {
    let o = S::zero();
    let l = S::one();
    seq![seq![l, o, o, o], seq![o, l, o, o], seq![o, o, o, l], seq![o, o, l, o]]
}

/// Hadamard.
pub open spec fn h_gate<S: Scalar>(u: Units<S>) -> Seq<Seq<S>> {
    seq![seq![u.h, u.h], seq![u.h, u.minus_h]]
}

/// The identity on one line.
pub open spec fn i1_gate<S: Scalar>() -> Seq<Seq<S>> {
    let o = S::zero();
    let l = S::one();
    seq![seq![l, o], seq![o, l]]
}

/// Swap: the two bits of the pair change places.
pub open spec fn swap_gate<S: Scalar>() -> Seq<Seq<S>> {
    let o = S::zero();
    let l = S::one();
    seq![seq![l, o, o, o], seq![o, o, l, o], seq![o, l, o, o], seq![o, o, o, l]]
}

/// `i2`, which has the matrix of `swap`.
pub open spec fn i2_gate<S: Scalar>() -> Seq<Seq<S>> {
    swap_gate()
}

/// Pauli X: the bit is flipped.
pub open spec fn x_gate<S: Scalar>() -> Seq<Seq<S>> {
    let o = S::zero();
    let l = S::one();
    seq![seq![o, l], seq![l, o]]
}

/// Pauli Y.
pub open spec fn y_gate<S: Scalar>(u: Units<S>) -> Seq<Seq<S>> {
    let o = S::zero();
    seq![seq![o, u.minus_i], seq![u.i, o]]
}

/// Pauli Z.
pub open spec fn z_gate<S: Scalar>(u: Units<S>) -> Seq<Seq<S>> {
    let o = S::zero();
    let l = S::one();
    seq![seq![l, o], seq![o, u.minus_one]]
}

/// The standard gates under their names, written with the units `u`.
pub open spec fn standard_table_over<S: Scalar>(u: Units<S>) -> Table<S> {
    seq![
        ("cnot"@, cnot_gate()),
        ("h"@, h_gate(u)),
        ("i1"@, i1_gate()),
        ("i2"@, i2_gate()),
        ("swap"@, swap_gate()),
        ("x"@, x_gate()),
        ("y"@, y_gate(u)),
        ("z"@, z_gate(u)),
    ]
}

/// The table that a new machine has.
pub open spec fn standard_table() -> TableView {
    standard_table_over(float_units())
}

/// The standard table is valid.
pub proof fn lemma_standard_table_valid()
    ensures
        valid_table(standard_table()),
{
    let t = standard_table();
    reveal_strlit("cnot");
    reveal_strlit("h");
    reveal_strlit("i1");
    reveal_strlit("i2");
    reveal_strlit("swap");
    reveal_strlit("x");
    reveal_strlit("y");
    reveal_strlit("z");
    assert(table_sorted(t)) by {
        reveal_with_fuel(name_precedes, 3);
        assert("i1"@.drop_first() =~= seq!['1']);
        assert("i2"@.drop_first() =~= seq!['2']);
    }
    let u = float_units();
    assert(table_sized(t)) by {
        assert(is_square(cnot_gate::<Complex>(), 4));
        assert(is_square(h_gate(u), 2));
        assert(is_square(i1_gate::<Complex>(), 2));
        assert(is_square(swap_gate::<Complex>(), 4));
        assert(is_square(x_gate::<Complex>(), 2));
        assert(is_square(y_gate(u), 2));
        assert(is_square(z_gate(u), 2));
    }
    assert(table_complete(t)) by {
        assert("i1"@[1] != "i2"@[1]);
        lemma_lookup_skip(t, "cnot"@, 0);
        lemma_lookup_skip(t, "h"@, 1);
        lemma_lookup_skip(t, "i1"@, 2);
        lemma_lookup_skip(t, "i2"@, 3);
        lemma_lookup_skip(t, "swap"@, 4);
        lemma_lookup_skip(t, "x"@, 5);
        lemma_lookup_skip(t, "y"@, 6);
        lemma_lookup_skip(t, "z"@, 7);
    }
}

/// The table that a new machine has: the Pauli gates `x`, `y` and `z`,
/// Hadamard `h`, the identity `i1`, and on two lines `cnot`, `swap` and
/// `i2`.
pub fn standard_gates() -> (r: GateTable)
    ensures
        r.wf(),
        r@ == standard_table(),
{
    let o = c0();
    let l = c1();
    let i = ci();
    let h = Complex::new(H_BITS, 0);
    let cnot = vecify2([[l, o, o, o], [o, l, o, o], [o, o, o, l], [o, o, l, o]]);
    let hadamard = vecify([[h, h], [h, h.neg()]]);
    let i1 = vecify([[l, o], [o, l]]);
    let i2 = vecify2([[l, o, o, o], [o, o, l, o], [o, l, o, o], [o, o, o, l]]);
    let swap = vecify2([[l, o, o, o], [o, o, l, o], [o, l, o, o], [o, o, o, l]]);
    let x = vecify([[o, l], [l, o]]);
    let y = vecify([[o, i.neg()], [i, o]]);
    let z = vecify([[l, o], [o, l.neg()]]);
    proof {
        let u = float_units();
        assert(cnot@ =~~= cnot_gate::<Complex>());
        assert(hadamard@ =~~= h_gate(u));
        assert(i1@ =~~= i1_gate::<Complex>());
        assert(i2@ =~~= i2_gate::<Complex>());
        assert(swap@ =~~= swap_gate::<Complex>());
        assert(x@ =~~= x_gate::<Complex>());
        assert(y@ =~~= y_gate(u));
        assert(z@ =~~= z_gate(u));
    }
    let mut entries: Vec<GateEntry> = Vec::new();
    entries.push(GateEntry { name: String::from_str("cnot"), matrix: cnot });
    entries.push(GateEntry { name: String::from_str("h"), matrix: hadamard });
    entries.push(GateEntry { name: String::from_str("i1"), matrix: i1 });
    entries.push(GateEntry { name: String::from_str("i2"), matrix: i2 });
    entries.push(GateEntry { name: String::from_str("swap"), matrix: swap });
    entries.push(GateEntry { name: String::from_str("x"), matrix: x });
    entries.push(GateEntry { name: String::from_str("y"), matrix: y });
    entries.push(GateEntry { name: String::from_str("z"), matrix: z });
    let r = GateTable { entries };
    proof {
        assert(r@ =~= standard_table());
        lemma_standard_table_valid();
    }
    r
}

/// Why `serde_json` could not read or write a text.
#[verifier::external_type_specification]
#[verifier::external_body]
pub struct ExJsonError(serde_json::Error);

/// The table that `serde_json` reads from a text, as a map from names to
/// rows of pairs of numbers, listed by name; `None` where it reads none.
pub uninterp spec fn gate_table_of_json(text: Seq<char>) -> Option<TableView>;

/// The text that `serde_json` writes for a table, as a map from names to
/// rows of pairs of numbers, over several lines; `None` where it writes
/// none.
pub uninterp spec fn json_of_gate_table(t: TableView) -> Option<Seq<char>>;

/// The table in a result of reading.
pub open spec fn parsed_table(r: Result<Vec<GateEntry>, serde_json::Error>) -> Option<TableView> {
    match r {
        Ok(entries) => Some(entries_view(entries@)),
        Err(_) => None,
    }
}

/// The text in a result of writing.
pub open spec fn written_text(r: Result<String, serde_json::Error>) -> Option<Seq<char>> {
    match r {
        Ok(text) => Some(text@),
        Err(_) => None,
    }
}

/// `serde_json::from_str` at the type of a map from strings to rows of
/// complex numbers, which `num_complex` reads as pairs `[re, im]`. What it
/// returns rests on the text alone. The map hands its entries out by name.
#[verifier::external_body]
fn parse_gate_table(text: &str) -> (r: Result<Vec<GateEntry>, serde_json::Error>)
    ensures
        parsed_table(r) == gate_table_of_json(text@),
{
    let map: BTreeMap<String, Vec<Vec<Complex64>>> = serde_json::from_str(text)?;
    Ok(map.into_iter().map(|(name, rows)| GateEntry {
        name,
        matrix: Matrix {
            rows: rows.iter().map(|row| row.iter().map(|c| Complex {
                re: c.re.to_bits(),
                im: c.im.to_bits(),
            }).collect()).collect(),
        },
    }).collect())
}

/// `serde_json::to_string_pretty` on the table as a map from names to rows
/// of complex numbers, which `num_complex` writes as pairs `[re, im]`. The
/// names being in order, each entry of the table is one entry of the map.
#[verifier::external_body]
fn write_gate_table(entries: &Vec<GateEntry>) -> (r: Result<String, serde_json::Error>)
    requires
        table_sorted(entries_view(entries@)),
    ensures
        written_text(r) == json_of_gate_table(entries_view(entries@)),
{
    let map: BTreeMap<&str, Vec<Vec<Complex64>>> = entries.iter().map(|e| (
        e.name.as_str(),
        e.matrix.rows.iter().map(|row| row.iter().map(|c| Complex64::new(
            Real::from_bits(c.re),
            Real::from_bits(c.im),
        )).collect()).collect(),
    )).collect();
    serde_json::to_string_pretty(&map)
}

/// `Display` of `serde_json::Error`: the reason, with line and column.
#[verifier::external_body]
fn error_text(e: &serde_json::Error) -> (r: String) {
    e.to_string()
}

/// Whether the entries make a valid table.
pub fn check_entries(entries: &Vec<GateEntry>) -> (r: bool)
    ensures
        r == valid_table(entries_view(entries@)),
{
    let ghost t = entries_view(entries@);
    let n = entries.len();
    let mut i: usize = 0;
    while i < n
        invariant
            t == entries_view(entries@),
            n == entries@.len(),
            i <= n,
            forall|k: int| 0 <= k < i ==> gate_sized((#[trigger] t[k]).1),
            forall|k: int, j: int|
                #![trigger t[k], t[j]]
                0 <= k && j == k + 1 && j < i ==> name_precedes(t[k].0, t[j].0),
        decreases n - i,
    {
        if !entries[i].matrix.is_gate() {
            assert(!gate_sized(t[i as int].1));
            return false;
        }
        if i > 0 && !precedes(entries[i - 1].name.as_str(), entries[i].name.as_str()) {
            assert(!name_precedes(t[i - 1].0, t[i as int].0));
            return false;
        }
        i += 1;
    }
    find_entry(entries, "cnot").is_some() && find_entry(entries, "h").is_some() && find_entry(
        entries,
        "i1",
    ).is_some() && find_entry(entries, "i2").is_some() && find_entry(entries, "swap").is_some()
        && find_entry(entries, "x").is_some() && find_entry(entries, "y").is_some() && find_entry(
        entries,
        "z",
    ).is_some()
}

impl GateTable {
    /// Takes the table that `text` holds in place of this one. The text is
    /// a JSON map from each name to the rows of its matrix, each number a
    /// pair `[re, im]`. Where the text holds no valid table, this one stays
    /// as it is.
    pub fn replace(&mut self, text: &str) -> (r: Result<(), QvmError>)
        ensures
            match gate_table_of_json(text@) {
                Some(t) => if valid_table(t) {
                    r is Ok && final(self)@ == t
                } else {
                    r matches Err(QvmError::InvalidGateSpec(_)) && *final(self) == *old(self)
                },
                None => r matches Err(QvmError::InvalidGateSpec(_)) && *final(self) == *old(self),
            },
    {
        match parse_gate_table(text) {
            Err(e) => Err(QvmError::InvalidGateSpec(error_text(&e))),
            Ok(entries) => {
                if check_entries(&entries) {
                    self.entries = entries;
                    Ok(())
                } else {
                    Err(
                        QvmError::InvalidGateSpec(
                            String::from_str(
                                "a gate table holds square matrices of size 2 or 4, among them cnot, h, i1, i2, swap, x, y and z",
                            ),
                        ),
                    )
                }
            },
        }
    }

    /// The table as text: a JSON map from each name to the rows of its
    /// matrix, in the order of the names. The text is empty where none can
    /// be written.
    pub fn serialize(&self) -> (r: String)
        requires
            self.wf(),
        ensures
            r@ == match json_of_gate_table(self@) {
                Some(text) => text,
                None => Seq::<char>::empty(),
            },
    {
        match write_gate_table(&self.entries) {
            Ok(text) => text,
            Err(_) => String::new(),
        }
    }

    /// The table is valid.
    pub open spec fn wf(&self) -> bool {
        valid_table(self@)
    }

    /// What stands under `name`, which the caller takes to act on as many
    /// lines as `arity` says.
    pub fn lookup(&self, name: &str, arity: Arity) -> (r: Result<&Matrix, QvmError>)
        ensures
            match table_lookup(self@, name@) {
                None => r == Err::<&Matrix, QvmError>(QvmError::UnknownGate),
                Some(m) => if m.len() == arity.size() {
                    r is Ok && r->Ok_0@ == m
                } else {
                    r == Err::<&Matrix, QvmError>(QvmError::GateArityMismatch)
                },
            },
            table_sized(self@) && r is Ok ==> r->Ok_0.wf(),
    {
        match find_entry(&self.entries, name) {
            None => Err(QvmError::UnknownGate),
            Some(i) => {
                let matrix = &self.entries[i].matrix;
                assert(self@[i as int].1 == matrix@);
                let size: usize = match arity {
                    Arity::Single => 2,
                    Arity::Double => 4,
                };
                if matrix.dim() == size {
                    Ok(matrix)
                } else {
                    Err(QvmError::GateArityMismatch)
                }
            },
        }
    }
}

} // verus!
