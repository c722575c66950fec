//! Firmware C source into register accesses and SDK calls.
//!
//! This module only extracts and names what an assignment touches, by the naming
//! conventions of the source: `<peripheral>_hw->member`,
//! `<PERIPHERAL>_BASE + <PERIPHERAL>_<REGISTER>_OFFSET`, or an address that folds to
//! a constant. It never decides whether a target is valid, for it has no device
//! model. What is not statically known is marked `Target::Unresolved`, or has no
//! value, rather than guessed.

use vstd::prelude::*;

use crate::c_source;
use crate::literal;
use crate::macros;
use crate::macros::{MacroScope, MacroTable};
use crate::syntax;
use crate::syntax::{SyntaxNode, SyntaxView};
use crate::text;

verus! {

broadcast use crate::text::group_views;

#[derive(Debug, Clone, Copy, PartialEq, Eq, Structural)]
pub enum AssignOp {
    Assign,
    OrAssign,
    AndAssign,
    XorAssign,
    AddAssign,
    SubAssign,
    MulAssign,
    DivAssign,
    ModAssign,
    ShlAssign,
    ShrAssign,
}

/// The operator that is written as `s`.
pub open spec fn assign_op(s: Seq<char>) -> Option<AssignOp> {
    if s == "="@ {
        Some(AssignOp::Assign)
    } else if s == "|="@ {
        Some(AssignOp::OrAssign)
    } else if s == "&="@ {
        Some(AssignOp::AndAssign)
    } else if s == "^="@ {
        Some(AssignOp::XorAssign)
    } else if s == "+="@ {
        Some(AssignOp::AddAssign)
    } else if s == "-="@ {
        Some(AssignOp::SubAssign)
    } else if s == "*="@ {
        Some(AssignOp::MulAssign)
    } else if s == "/="@ {
        Some(AssignOp::DivAssign)
    } else if s == "%="@ {
        Some(AssignOp::ModAssign)
    } else if s == "<<="@ {
        Some(AssignOp::ShlAssign)
    } else if s == ">>="@ {
        Some(AssignOp::ShrAssign)
    } else {
        None
    }
}

impl AssignOp {
    pub fn from_str(s: &str) -> (r: Option<AssignOp>)
        ensures
            r == assign_op(s@),
    {
        if text::same_text(s, "=") {
            Some(AssignOp::Assign)
        } else if text::same_text(s, "|=") {
            Some(AssignOp::OrAssign)
        } else if text::same_text(s, "&=") {
            Some(AssignOp::AndAssign)
        } else if text::same_text(s, "^=") {
            Some(AssignOp::XorAssign)
        } else if text::same_text(s, "+=") {
            Some(AssignOp::AddAssign)
        } else if text::same_text(s, "-=") {
            Some(AssignOp::SubAssign)
        } else if text::same_text(s, "*=") {
            Some(AssignOp::MulAssign)
        } else if text::same_text(s, "/=") {
            Some(AssignOp::DivAssign)
        } else if text::same_text(s, "%=") {
            Some(AssignOp::ModAssign)
        } else if text::same_text(s, "<<=") {
            Some(AssignOp::ShlAssign)
        } else if text::same_text(s, ">>=") {
            Some(AssignOp::ShrAssign)
        } else {
            None
        }
    }
}

#[derive(Debug, Clone, Copy, PartialEq, Eq, Structural)]
pub enum AccessTier {
    /// `*(volatile T *)(EXPR) = v`: a write through a raw memory-mapped pointer.
    RawPointer,
    /// `peripheral_hw->member = v`: a member of a `hardware_structs` struct.
    StructField,
    /// An address built from the `_BASE` and `_OFFSET` macros of `hardware/regs`.
    RegsConstant,
}

#[derive(Debug, Clone, PartialEq, Eq)]
pub enum Target {
    /// Peripheral and register by the naming convention `<peripheral>_hw->member`.
    StructField { peripheral: String, register: String },
    /// Peripheral, and register where the offset macro follows the naming
    /// convention, by the macro names of `hardware/regs`.
    RegsMacro { peripheral: String, register: Option<String> },
    /// A concrete address, known because the expression folds to a constant.
    Address(u64),
    /// A shape that is recognised, whose name or address is not statically known.
    Unresolved,
}

pub enum TargetView {
    StructField { peripheral: Seq<char>, register: Seq<char> },
    RegsMacro { peripheral: Seq<char>, register: Option<Seq<char>> },
    Address(u64),
    Unresolved,
}

impl View for Target {
    type V = TargetView;

    open spec fn view(&self) -> TargetView {
        match *self {
            Target::StructField { peripheral, register } => TargetView::StructField {
                peripheral: peripheral@,
                register: register@,
            },
            Target::RegsMacro { peripheral, register } => TargetView::RegsMacro {
                peripheral: peripheral@,
                register: text::option_view(register),
            },
            Target::Address(a) => TargetView::Address(a),
            Target::Unresolved => TargetView::Unresolved,
        }
    }
}

/// A write that has one of the recognised shapes.
#[derive(Debug, Clone)]
pub struct RegisterAccess {
    pub tier: AccessTier,
    pub target: Target,
    pub op: AssignOp,
    /// The value being written, where the right-hand side folds to a constant.
    /// `None` means that it is not statically known.
    pub value: Option<u64>,
    pub raw_lhs: String,
    pub raw_rhs: String,
    pub file: String,
    pub line: usize,
}

pub struct RegisterAccessView {
    pub tier: AccessTier,
    pub target: TargetView,
    pub op: AssignOp,
    pub value: Option<u64>,
    pub raw_lhs: Seq<char>,
    pub raw_rhs: Seq<char>,
    pub file: Seq<char>,
    pub line: usize,
}

impl View for RegisterAccess {
    type V = RegisterAccessView;

    open spec fn view(&self) -> RegisterAccessView {
        RegisterAccessView {
            tier: self.tier,
            target: self.target@,
            op: self.op,
            value: self.value,
            raw_lhs: self.raw_lhs@,
            raw_rhs: self.raw_rhs@,
            file: self.file@,
            line: self.line,
        }
    }
}

/// A call of a Pico SDK function that the library models.
#[derive(Debug, Clone)]
pub struct HalCall {
    pub function: String,
    /// The arguments that fold to a constant. `None` means that the value is not
    /// statically known.
    pub args: Vec<Option<u64>>,
    pub raw_args: Vec<String>,
    pub file: String,
    pub line: usize,
}

pub struct HalCallView {
    pub function: Seq<char>,
    pub args: Seq<Option<u64>>,
    pub raw_args: Seq<Seq<char>>,
    pub file: Seq<char>,
    pub line: usize,
}

impl View for HalCall {
    type V = HalCallView;

    open spec fn view(&self) -> HalCallView {
        HalCallView {
            function: self.function@,
            args: self.args@,
            raw_args: text::views(self.raw_args@),
            file: self.file@,
            line: self.line,
        }
    }
}

// ── Constant folding ─────────────────────────────────────────────────────────

/// The value of `op v`, in sixty-four bits.
pub open spec fn unary_value(op: Seq<char>, v: u64) -> Option<u64> {
    if op == "-"@ {
        Some(((0x1_0000_0000_0000_0000 - v) % 0x1_0000_0000_0000_0000) as u64)
    } else if op == "~"@ {
        Some(!v)
    } else if op == "+"@ {
        Some(v)
    } else {
        None
    }
}

/// The value of `l op r`, in sixty-four bits: sums, differences and products wrap, a
/// shift takes its distance modulo sixty-four, and a division by zero has no value.
pub open spec fn binary_value(op: Seq<char>, l: u64, r: u64) -> Option<u64> {
    if op == "+"@ {
        Some(((l + r) % 0x1_0000_0000_0000_0000) as u64)
    } else if op == "-"@ {
        Some(((l - r) % 0x1_0000_0000_0000_0000) as u64)
    } else if op == "*"@ {
        Some(((l * r) % 0x1_0000_0000_0000_0000) as u64)
    } else if op == "/"@ {
        if r == 0 {
            None
        } else {
            Some((l / r) as u64)
        }
    } else if op == "%"@ {
        if r == 0 {
            None
        } else {
            Some((l % r) as u64)
        }
    } else if op == "|"@ {
        Some(l | r)
    } else if op == "&"@ {
        Some(l & r)
    } else if op == "^"@ {
        Some(l ^ r)
    } else if op == "<<"@ {
        Some(l << ((r % 64) as u64))
    } else if op == ">>"@ {
        Some(l >> ((r % 64) as u64))
    } else {
        None
    }
}

/// The constant that an expression folds to: integer literals, macros that stand for
/// one, and arithmetic on these. Anything else makes the whole expression unfoldable.
pub open spec fn folded(node: SyntaxView, macros: Map<Seq<char>, u64>) -> Option<u64>
    decreases node,
{
    if node.kind == "number_literal"@ {
        literal::number_literal(node.text)
    } else if node.kind == "identifier"@ {
        macros::value_of(macros, node.text)
    } else if node.kind == "parenthesized_expression"@ {
        proof {
            syntax::lemma_first_operand_is_smaller(node);
        }
        match node.first_operand() {
            Some(inner) => folded(inner, macros),
            None => None,
        }
    } else if node.kind == "unary_expression"@ {
        proof {
            syntax::lemma_field_is_smaller(node, "argument"@);
        }
        match (node.field("operator"@), node.field("argument"@)) {
            (Some(op), Some(argument)) => match folded(argument, macros) {
                Some(v) => unary_value(op.text, v),
                None => None,
            },
            _ => None,
        }
    } else if node.kind == "binary_expression"@ {
        proof {
            syntax::lemma_field_is_smaller(node, "left"@);
            syntax::lemma_field_is_smaller(node, "right"@);
        }
        match (node.field("operator"@), node.field("left"@), node.field("right"@)) {
            (Some(op), Some(left), Some(right)) => match (folded(left, macros), folded(right, macros)) {
                (Some(l), Some(r)) => binary_value(op.text, l, r),
                _ => None,
            },
            _ => None,
        }
    } else {
        None
    }
}

fn unary_value_of(op: &str, v: u64) -> (r: Option<u64>)
    ensures
        r == unary_value(op@, v),
{
    if text::same_text(op, "-") {
        Some(0u64.wrapping_sub(v))
    } else if text::same_text(op, "~") {
        Some(!v)
    } else if text::same_text(op, "+") {
        Some(v)
    } else {
        None
    }
}

fn binary_value_of(op: &str, l: u64, r: u64) -> (v: Option<u64>)
    ensures
        v == binary_value(op@, l, r),
{
    if text::same_text(op, "+") {
        Some(l.wrapping_add(r))
    } else if text::same_text(op, "-") {
        Some(l.wrapping_sub(r))
    } else if text::same_text(op, "*") {
        Some(l.wrapping_mul(r))
    } else if text::same_text(op, "/") {
        if r == 0 {
            None
        } else {
            Some(l / r)
        }
    } else if text::same_text(op, "%") {
        if r == 0 {
            None
        } else {
            Some(l % r)
        }
    } else if text::same_text(op, "|") {
        Some(l | r)
    } else if text::same_text(op, "&") {
        Some(l & r)
    } else if text::same_text(op, "^") {
        Some(l ^ r)
    } else if text::same_text(op, "<<") {
        Some(l << (r % 64))
    } else if text::same_text(op, ">>") {
        Some(l >> (r % 64))
    } else {
        None
    }
}

/// Folds integer arithmetic to a constant. An identifier stands for the macro of that
/// name; one that no macro defines, or any other subexpression that is not constant,
/// makes the whole expression unfoldable.
pub fn fold_const(node: &SyntaxNode, macros: &MacroScope) -> (r: Option<u64>)
    ensures
        r == folded(node@, macros@),
    decreases node,
{
    let kind = node.kind.as_str();
    if text::same_text(kind, "number_literal") {
        literal::parse_number_literal(node.text.as_str())
    } else if text::same_text(kind, "identifier") {
        macros.get(node.text.as_str())
    } else if text::same_text(kind, "parenthesized_expression") {
        match node.first_operand() {
            Some(inner) => fold_const(inner, macros),
            None => None,
        }
    } else if text::same_text(kind, "unary_expression") {
        match (node.child_by_field_name("operator"), node.child_by_field_name("argument")) {
            (Some(op), Some(argument)) => match fold_const(argument, macros) {
                Some(v) => unary_value_of(op.text.as_str(), v),
                None => None,
            },
            _ => None,
        }
    } else if text::same_text(kind, "binary_expression") {
        let op = node.child_by_field_name("operator");
        let left = node.child_by_field_name("left");
        let right = node.child_by_field_name("right");
        match (op, left, right) {
            (Some(op), Some(left), Some(right)) => {
                match (fold_const(left, macros), fold_const(right, macros)) {
                    (Some(l), Some(r)) => binary_value_of(op.text.as_str(), l, r),
                    _ => None,
                }
            },
            _ => None,
        }
    } else {
        None
    }
}

// ── Targets ──────────────────────────────────────────────────────────────────

/// The peripheral behind a variable named `<peripheral>_hw`.
pub open spec fn hw_peripheral(var: Seq<char>) -> Option<Seq<char>> {
    match text::strip_suffix(var, "_hw"@) {
        Some(s) => Some(text::upper_case(s)),
        None => None,
    }
}

/// The peripheral behind a macro named `<PERIPHERAL>_BASE`.
pub open spec fn base_peripheral(name: Seq<char>) -> Option<Seq<char>> {
    text::strip_suffix(name, "_BASE"@)
}

/// The register behind a macro named `<PERIPHERAL>_<REGISTER>_OFFSET`, where the
/// peripheral's name may be left out.
pub open spec fn offset_register(name: Seq<char>, peripheral: Seq<char>) -> Option<Seq<char>> {
    match text::strip_suffix(name, "_OFFSET"@) {
        Some(s) => match text::strip_prefix(s, peripheral + "_"@) {
            Some(register) => Some(register),
            None => Some(s),
        },
        None => None,
    }
}

/// The target of an address that two macros add up to, the base in either place.
pub open spec fn base_offset_target(a: Seq<char>, b: Seq<char>) -> TargetView {
    let (base, offset) = if !"_BASE"@.is_suffix_of(a) && "_BASE"@.is_suffix_of(b) {
        (b, a)
    } else {
        (a, b)
    };
    match base_peripheral(base) {
        Some(peripheral) => TargetView::RegsMacro {
            peripheral,
            register: offset_register(offset, peripheral),
        },
        None => TargetView::Unresolved,
    }
}

/// The expression inside any casts and parentheses.
pub open spec fn unwrapped(node: SyntaxView) -> SyntaxView
    decreases node,
{
    if node.kind == "cast_expression"@ {
        proof {
            syntax::lemma_field_is_smaller(node, "value"@);
        }
        match node.field("value"@) {
            Some(inner) => unwrapped(inner),
            None => node,
        }
    } else if node.kind == "parenthesized_expression"@ {
        proof {
            syntax::lemma_first_operand_is_smaller(node);
        }
        match node.first_operand() {
            Some(inner) => unwrapped(inner),
            None => node,
        }
    } else {
        node
    }
}

/// What an address expression points to: a concrete address where it folds to a
/// constant, else what its macro names tell.
pub open spec fn address_target(node: SyntaxView, macros: Map<Seq<char>, u64>) -> (AccessTier, TargetView) {
    match folded(node, macros) {
        Some(address) => (AccessTier::RawPointer, TargetView::Address(address)),
        None => if node.kind == "binary_expression"@ {
            match (node.field("operator"@), node.field("left"@), node.field("right"@)) {
                (Some(op), Some(l), Some(r)) if (op.text == "+"@ || op.text == "-"@) && l.kind == "identifier"@
                    && r.kind == "identifier"@ => (AccessTier::RegsConstant, base_offset_target(l.text, r.text)),
                _ => (AccessTier::RawPointer, TargetView::Unresolved),
            }
        } else if node.kind == "identifier"@ && base_peripheral(node.text) is Some {
            (
                AccessTier::RegsConstant,
                TargetView::RegsMacro { peripheral: base_peripheral(node.text)->0, register: None },
            )
        } else {
            (AccessTier::RawPointer, TargetView::Unresolved)
        },
    }
}

/// What the left-hand side of an assignment writes to. `None` means that it has
/// neither of the shapes `*address` and `pointer->member`, so that the assignment is
/// no register access.
pub open spec fn lhs_target(left: SyntaxView, macros: Map<Seq<char>, u64>) -> Option<(AccessTier, TargetView)> {
    if left.kind == "pointer_expression"@ {
        match (left.field("operator"@), left.field("argument"@)) {
            (Some(op), Some(argument)) if op.text == "*"@ => Some(address_target(unwrapped(argument), macros)),
            _ => None,
        }
    } else if left.kind == "field_expression"@ {
        match (left.field("operator"@), left.field("argument"@), left.field("field"@)) {
            (Some(op), Some(var), Some(member)) if op.text == "->"@ => Some(
                (
                    AccessTier::StructField,
                    match hw_peripheral(var.text) {
                        Some(peripheral) => TargetView::StructField {
                            peripheral,
                            register: text::upper_case(member.text),
                        },
                        None => TargetView::Unresolved,
                    },
                ),
            ),
            _ => None,
        }
    } else {
        None
    }
}

/// The register access that an assignment makes, if it makes one.
pub open spec fn assignment_access(
    node: SyntaxView,
    file: Seq<char>,
    macros: Map<Seq<char>, u64>,
) -> Option<RegisterAccessView> {
    match (node.field("operator"@), node.field("left"@), node.field("right"@)) {
        (Some(op), Some(left), Some(right)) => match (assign_op(op.text), lhs_target(left, macros)) {
            (Some(op), Some((tier, target))) => Some(
                RegisterAccessView {
                    tier,
                    target,
                    op,
                    value: folded(right, macros),
                    raw_lhs: left.text,
                    raw_rhs: right.text,
                    file,
                    line: node.line(),
                },
            ),
            _ => None,
        },
        _ => None,
    }
}

pub fn peripheral_from_hw_var(var: &str) -> (r: Option<String>)
    ensures
        text::option_view(r) == hw_peripheral(var@),
{
    match text::strip_suffix_text(var, "_hw") {
        Some(s) => Some(text::upper_case_text(s.as_str())),
        None => None,
    }
}

pub fn peripheral_from_base_macro(name: &str) -> (r: Option<String>)
    ensures
        text::option_view(r) == base_peripheral(name@),
{
    text::strip_suffix_text(name, "_BASE")
}

pub fn register_from_offset_macro(offset_macro: &str, peripheral: &str) -> (r: Option<String>)
    ensures
        text::option_view(r) == offset_register(offset_macro@, peripheral@),
{
    match text::strip_suffix_text(offset_macro, "_OFFSET") {
        Some(stripped) => {
            let prefix = peripheral.to_owned().concat("_");
            match text::strip_prefix_text(stripped.as_str(), prefix.as_str()) {
                Some(register) => Some(register),
                None => Some(stripped),
            }
        },
        None => None,
    }
}

pub fn resolve_base_offset_macros(a: &str, b: &str) -> (r: Target)
    ensures
        r@ == base_offset_target(a@, b@),
{
    let (base_macro, offset_macro) = if text::ends_with_text(a, "_BASE") {
        (a, b)
    } else if text::ends_with_text(b, "_BASE") {
        (b, a)
    } else {
        (a, b)
    };
    match peripheral_from_base_macro(base_macro) {
        Some(peripheral) => {
            let register = register_from_offset_macro(offset_macro, peripheral.as_str());
            Target::RegsMacro { peripheral, register }
        },
        None => Target::Unresolved,
    }
}

/// Strips casts and parentheses to get to the address expression that a pointer
/// dereference is built from.
pub fn unwrap_cast_and_parens(node: &SyntaxNode) -> (r: &SyntaxNode)
    ensures
        r@ == unwrapped(node@),
    decreases node,
{
    let kind = node.kind.as_str();
    if text::same_text(kind, "cast_expression") {
        match node.child_by_field_name("value") {
            Some(inner) => unwrap_cast_and_parens(inner),
            None => node,
        }
    } else if text::same_text(kind, "parenthesized_expression") {
        match node.first_operand() {
            Some(inner) => unwrap_cast_and_parens(inner),
            None => node,
        }
    } else {
        node
    }
}

pub fn resolve_address_expr(node: &SyntaxNode, macros: &MacroScope) -> (r: (AccessTier, Target))
    ensures
        (r.0, r.1@) == address_target(node@, macros@),
{
    if let Some(address) = fold_const(node, macros) {
        return (AccessTier::RawPointer, Target::Address(address));
    }
    let kind = node.kind.as_str();
    if text::same_text(kind, "binary_expression") {
        let op = node.child_by_field_name("operator");
        let left = node.child_by_field_name("left");
        let right = node.child_by_field_name("right");
        if let (Some(op), Some(l), Some(r)) = (op, left, right) {
            let op = op.text.as_str();
            if (text::same_text(op, "+") || text::same_text(op, "-")) && text::same_text(l.kind.as_str(), "identifier")
                && text::same_text(r.kind.as_str(), "identifier") {
                return (AccessTier::RegsConstant, resolve_base_offset_macros(l.text.as_str(), r.text.as_str()));
            }
        }
    } else if text::same_text(kind, "identifier") {
        if let Some(peripheral) = peripheral_from_base_macro(node.text.as_str()) {
            return (AccessTier::RegsConstant, Target::RegsMacro { peripheral, register: None });
        }
    }
    (AccessTier::RawPointer, Target::Unresolved)
}

/// Recognises the two shapes of a left-hand side. `None` means that `left` has
/// neither, as a plain local variable has not; `Target::Unresolved` means that it has
/// one, with a target that is not known.
pub fn resolve_lhs(left: &SyntaxNode, macros: &MacroScope) -> (r: Option<(AccessTier, Target)>)
    ensures
        match r {
            Some((tier, target)) => lhs_target(left@, macros@) == Some((tier, target@)),
            None => lhs_target(left@, macros@) is None,
        },
{
    let kind = left.kind.as_str();
    if text::same_text(kind, "pointer_expression") {
        match (left.child_by_field_name("operator"), left.child_by_field_name("argument")) {
            (Some(op), Some(argument)) => {
                if text::same_text(op.text.as_str(), "*") {
                    Some(resolve_address_expr(unwrap_cast_and_parens(argument), macros))
                } else {
                    None
                }
            },
            _ => None,
        }
    } else if text::same_text(kind, "field_expression") {
        let op = left.child_by_field_name("operator");
        let var = left.child_by_field_name("argument");
        let member = left.child_by_field_name("field");
        match (op, var, member) {
            (Some(op), Some(var), Some(member)) => {
                if text::same_text(op.text.as_str(), "->") {
                    match peripheral_from_hw_var(var.text.as_str()) {
                        Some(peripheral) => {
                            let register = text::upper_case_text(member.text.as_str());
                            Some((AccessTier::StructField, Target::StructField { peripheral, register }))
                        },
                        None => Some((AccessTier::StructField, Target::Unresolved)),
                    }
                } else {
                    None
                }
            },
            _ => None,
        }
    } else {
        None
    }
}

/// The view of an optional access.
pub open spec fn option_access(r: Option<RegisterAccess>) -> Option<RegisterAccessView> {
    match r {
        Some(a) => Some(a@),
        None => None,
    }
}

pub fn resolve_assignment(node: &SyntaxNode, file: &str, macros: &MacroScope) -> (r: Option<RegisterAccess>)
    ensures
        option_access(r) == assignment_access(node@, file@, macros@),
{
    let op = node.child_by_field_name("operator");
    let left = node.child_by_field_name("left");
    let right = node.child_by_field_name("right");
    match (op, left, right) {
        (Some(op), Some(left), Some(right)) => {
            match (AssignOp::from_str(op.text.as_str()), resolve_lhs(left, macros)) {
                (Some(op), Some((tier, target))) => {
                    let value = fold_const(right, macros);
                    Some(
                        RegisterAccess {
                            tier,
                            target,
                            op,
                            value,
                            raw_lhs: left.text.clone(),
                            raw_rhs: right.text.clone(),
                            file: file.to_owned(),
                            line: node.line(),
                        },
                    )
                },
                _ => None,
            }
        },
        _ => None,
    }
}

// ── Walking the tree ─────────────────────────────────────────────────────────

/// What an option holds, as a sequence of one or none.
pub open spec fn listed<A>(found: Option<A>) -> Seq<A> {
    match found {
        Some(a) => seq![a],
        None => Seq::empty(),
    }
}

/// The register accesses of a tree, each assignment before those inside it.
pub open spec fn accesses_in(
    node: SyntaxView,
    file: Seq<char>,
    macros: Map<Seq<char>, u64>,
) -> Seq<RegisterAccessView>
    decreases node, node.children.len() + 1,
{
    let own = if node.kind == "assignment_expression"@ {
        listed(assignment_access(node, file, macros))
    } else {
        Seq::empty()
    };
    own + accesses_before(node, file, macros, node.children.len())
}

/// The register accesses of the first `n` children of a node.
pub open spec fn accesses_before(
    node: SyntaxView,
    file: Seq<char>,
    macros: Map<Seq<char>, u64>,
    n: nat,
) -> Seq<RegisterAccessView>
    decreases node, n,
{
    if n == 0 || n > node.children.len() {
        Seq::empty()
    } else {
        accesses_before(node, file, macros, (n - 1) as nat) + accesses_in(node.children[n - 1], file, macros)
    }
}

/// The SDK functions that are modelled. A call of any other is out of scope: it is
/// not extracted.
pub open spec fn is_hal_function(name: Seq<char>) -> bool {
    ||| name == "gpio_set_function"@
    ||| name == "gpio_init"@
    ||| name == "gpio_put"@
    ||| name == "gpio_set_dir"@
    ||| name == "uart_init"@
    ||| name == "spi_init"@
    ||| name == "i2c_init"@
    ||| name == "pwm_set_wrap"@
    ||| name == "pwm_set_chan_level"@
    ||| name == "dma_channel_configure"@
    ||| name == "adc_select_input"@
}

/// The constants that a list of expressions folds to.
pub open spec fn folded_all(nodes: Seq<SyntaxView>, macros: Map<Seq<char>, u64>) -> Seq<Option<u64>> {
    nodes.map_values(|n: SyntaxView| folded(n, macros))
}

/// The source texts of a list of nodes.
pub open spec fn texts(nodes: Seq<SyntaxView>) -> Seq<Seq<char>> {
    nodes.map_values(|n: SyntaxView| n.text)
}

/// The SDK call that a call expression makes, if it makes one.
pub open spec fn hal_call_at(
    node: SyntaxView,
    file: Seq<char>,
    macros: Map<Seq<char>, u64>,
) -> Option<HalCallView> {
    match (node.field("function"@), node.field("arguments"@)) {
        (Some(function), Some(arguments)) if function.kind == "identifier"@ && is_hal_function(function.text) => Some(
            HalCallView {
                function: function.text,
                args: folded_all(syntax::operands(arguments.children), macros),
                raw_args: texts(syntax::operands(arguments.children)),
                file,
                line: node.line(),
            },
        ),
        _ => None,
    }
}

/// The SDK calls of a tree, each call before those inside it.
pub open spec fn hal_calls_in(node: SyntaxView, file: Seq<char>, macros: Map<Seq<char>, u64>) -> Seq<HalCallView>
    decreases node, node.children.len() + 1,
{
    let own = if node.kind == "call_expression"@ {
        listed(hal_call_at(node, file, macros))
    } else {
        Seq::empty()
    };
    own + hal_calls_before(node, file, macros, node.children.len())
}

/// The SDK calls of the first `n` children of a node.
pub open spec fn hal_calls_before(
    node: SyntaxView,
    file: Seq<char>,
    macros: Map<Seq<char>, u64>,
    n: nat,
) -> Seq<HalCallView>
    decreases node, n,
{
    if n == 0 || n > node.children.len() {
        Seq::empty()
    } else {
        hal_calls_before(node, file, macros, (n - 1) as nat) + hal_calls_in(node.children[n - 1], file, macros)
    }
}

/// Adds the register accesses of a tree to `out`.
pub fn walk(node: &SyntaxNode, file: &str, macros: &MacroScope, out: &mut Vec<RegisterAccess>)
    ensures
        text::views(final(out)@) == text::views(old(out)@) + accesses_in(node@, file@, macros@),
    decreases node,
{
    broadcast use crate::syntax::lemma_node_children;
    let ghost before = text::views(out@);
    if text::same_text(node.kind.as_str(), "assignment_expression") {
        if let Some(access) = resolve_assignment(node, file, macros) {
            out.push(access);
        }
    }
    let ghost own = text::views(out@);
    let mut i: usize = 0;
    assert(own =~= own + accesses_before(node@, file@, macros@, 0));
    while i < node.children.len()
        invariant
            i <= node.children@.len(),
            node@.children == text::views(node.children@),
            text::views(out@) == own + accesses_before(node@, file@, macros@, i as nat),
        decreases node.children.len() - i,
    {
        let child = &node.children[i];
        assert(decreases_to!(node => node.children@));
        assert(node@.children[i as int] == child@);
        walk(child, file, macros, out);
        i += 1;
        assert(text::views(out@) =~= own + accesses_before(node@, file@, macros@, i as nat));
    }
    assert(text::views(out@) =~= before + accesses_in(node@, file@, macros@));
}

fn is_modelled(function: &str) -> (r: bool)
    ensures
        r == is_hal_function(function@),
{
    text::same_text(function, "gpio_set_function") || text::same_text(function, "gpio_init") || text::same_text(
        function,
        "gpio_put",
    ) || text::same_text(function, "gpio_set_dir") || text::same_text(function, "uart_init") || text::same_text(
        function,
        "spi_init",
    ) || text::same_text(function, "i2c_init") || text::same_text(function, "pwm_set_wrap") || text::same_text(
        function,
        "pwm_set_chan_level",
    ) || text::same_text(function, "dma_channel_configure") || text::same_text(function, "adc_select_input")
}

/// The view of an optional call.
pub open spec fn option_call(r: Option<HalCall>) -> Option<HalCallView> {
    match r {
        Some(c) => Some(c@),
        None => None,
    }
}

pub fn extract_hal_call(node: &SyntaxNode, file: &str, macros: &MacroScope) -> (r: Option<HalCall>)
    ensures
        option_call(r) == hal_call_at(node@, file@, macros@),
{
    let (function, arguments) = match (
        node.child_by_field_name("function"),
        node.child_by_field_name("arguments"),
    ) {
        (Some(function), Some(arguments)) => (function, arguments),
        _ => {
            return None;
        },
    };
    if !text::same_text(function.kind.as_str(), "identifier") || !is_modelled(function.text.as_str()) {
        return None;
    }
    let nodes = arguments.operand_nodes();
    let ghost named = syntax::operands(arguments@.children);
    let mut args: Vec<Option<u64>> = Vec::new();
    let mut raw_args: Vec<String> = Vec::new();
    let mut i: usize = 0;
    while i < nodes.len()
        invariant
            i <= nodes@.len(),
            named == text::views(nodes@),
            args@ =~= folded_all(named, macros@).take(i as int),
            text::views(raw_args@) =~= texts(named).take(i as int),
        decreases nodes.len() - i,
    {
        assert(named[i as int] == nodes@[i as int]@);
        args.push(fold_const(nodes[i], macros));
        raw_args.push(nodes[i].text.clone());
        i += 1;
    }
    assert(args@ =~= folded_all(named, macros@));
    assert(text::views(raw_args@) =~= texts(named));
    Some(HalCall { function: function.text.clone(), args, raw_args, file: file.to_owned(), line: node.line() })
}

/// Adds the SDK calls of a tree to `out`.
pub fn walk_hal(node: &SyntaxNode, file: &str, macros: &MacroScope, out: &mut Vec<HalCall>)
    ensures
        text::views(final(out)@) == text::views(old(out)@) + hal_calls_in(node@, file@, macros@),
    decreases node,
{
    broadcast use crate::syntax::lemma_node_children;
    let ghost before = text::views(out@);
    if text::same_text(node.kind.as_str(), "call_expression") {
        if let Some(call) = extract_hal_call(node, file, macros) {
            out.push(call);
        }
    }
    let ghost own = text::views(out@);
    let mut i: usize = 0;
    assert(own =~= own + hal_calls_before(node@, file@, macros@, 0));
    while i < node.children.len()
        invariant
            i <= node.children@.len(),
            node@.children == text::views(node.children@),
            text::views(out@) == own + hal_calls_before(node@, file@, macros@, i as nat),
        decreases node.children.len() - i,
    {
        let child = &node.children[i];
        assert(decreases_to!(node => node.children@));
        assert(node@.children[i as int] == child@);
        walk_hal(child, file, macros, out);
        i += 1;
        assert(text::views(out@) =~= own + hal_calls_before(node@, file@, macros@, i as nat));
    }
    assert(text::views(out@) =~= before + hal_calls_in(node@, file@, macros@));
}

// ── Extraction from source ───────────────────────────────────────────────────

/// A source file: its path and its text.
#[derive(Debug)]
pub struct SourceFile {
    pub path: String,
    pub source: String,
}

pub struct SourceFileView {
    pub path: Seq<char>,
    pub source: Seq<char>,
}

impl View for SourceFile {
    type V = SourceFileView;

    open spec fn view(&self) -> SourceFileView {
        SourceFileView { path: self.path@, source: self.source@ }
    }
}

/// The register accesses of a syntax tree, with the macros of its own file before
/// those of the project.
pub open spec fn tree_accesses(
    root: SyntaxView,
    file: Seq<char>,
    project: Map<Seq<char>, u64>,
) -> Seq<RegisterAccessView> {
    accesses_in(root, file, macros::in_effect(macros::macro_table(macros::definitions_in(root)), project))
}

/// The SDK calls of a syntax tree, with the macros of its own file before those of
/// the project.
pub open spec fn tree_hal_calls(root: SyntaxView, file: Seq<char>, project: Map<Seq<char>, u64>) -> Seq<HalCallView> {
    hal_calls_in(root, file, macros::in_effect(macros::macro_table(macros::definitions_in(root)), project))
}

/// The register accesses of a source text.
pub open spec fn source_accesses(
    source: Seq<char>,
    file: Seq<char>,
    project: Map<Seq<char>, u64>,
) -> Seq<RegisterAccessView> {
    match c_source::c_syntax(source) {
        Some(root) => tree_accesses(root, file, project),
        None => Seq::empty(),
    }
}

/// The SDK calls of a source text.
pub open spec fn source_hal_calls(
    source: Seq<char>,
    file: Seq<char>,
    project: Map<Seq<char>, u64>,
) -> Seq<HalCallView> {
    match c_source::c_syntax(source) {
        Some(root) => tree_hal_calls(root, file, project),
        None => Seq::empty(),
    }
}

/// The macro definitions of the files of a project, file by file.
pub open spec fn project_definitions(files: Seq<SourceFileView>) -> Seq<(Seq<char>, Option<u64>)>
    decreases files.len(),
{
    if files.len() == 0 {
        Seq::empty()
    } else {
        let own = match c_source::c_syntax(files.last().source) {
            Some(root) => macros::settled(macros::definitions_in(root)),
            None => Seq::empty(),
        };
        project_definitions(files.drop_last()) + own
    }
}

/// Extracts every recognised register access of a syntax tree.
pub fn accesses_of_tree(root: &SyntaxNode, file: &str, project: &MacroTable) -> (r: Vec<RegisterAccess>)
    ensures
        text::views(r@) == tree_accesses(root@, file@, project@),
{
    let local = macros::build_macro_table(root);
    let scope = MacroScope { local: &local, project };
    let mut out: Vec<RegisterAccess> = Vec::new();
    walk(root, file, &scope, &mut out);
    assert(text::views(out@) =~= tree_accesses(root@, file@, project@));
    out
}

/// Extracts every call of a modelled SDK function of a syntax tree.
pub fn hal_calls_of_tree(root: &SyntaxNode, file: &str, project: &MacroTable) -> (r: Vec<HalCall>)
    ensures
        text::views(r@) == tree_hal_calls(root@, file@, project@),
{
    let local = macros::build_macro_table(root);
    let scope = MacroScope { local: &local, project };
    let mut out: Vec<HalCall> = Vec::new();
    walk_hal(root, file, &scope, &mut out);
    assert(text::views(out@) =~= tree_hal_calls(root@, file@, project@));
    out
}

/// Extracts every recognised register access of `source`. What has none of the
/// recognised shapes (a write through a dereferenced pointer, a write to a member
/// through `->`) is not a register access that this library claims to understand.
pub fn extract_accesses(source: &str, file: &str) -> (r: Vec<RegisterAccess>)
    ensures
        text::views(r@) == source_accesses(source@, file@, Map::empty()),
{
    let project = MacroTable::new();
    extract_accesses_with_macros(source, file, &project)
}

/// Extracts every recognised register access of `source`, which may use the macros of
/// its project.
pub fn extract_accesses_with_macros(source: &str, file: &str, project: &MacroTable) -> (r: Vec<RegisterAccess>)
    ensures
        text::views(r@) == source_accesses(source@, file@, project@),
{
    match c_source::parse_c(source) {
        Some(root) => accesses_of_tree(&root, file, project),
        None => Vec::new(),
    }
}

/// Extracts every call of a modelled Pico SDK function, its arguments folded to
/// constants where they can be.
pub fn extract_hal_calls(source: &str, file: &str) -> (r: Vec<HalCall>)
    ensures
        text::views(r@) == source_hal_calls(source@, file@, Map::empty()),
{
    let project = MacroTable::new();
    extract_hal_calls_with_macros(source, file, &project)
}

/// Extracts every call of a modelled Pico SDK function, with the macros of the project.
pub fn extract_hal_calls_with_macros(source: &str, file: &str, project: &MacroTable) -> (r: Vec<HalCall>)
    ensures
        text::views(r@) == source_hal_calls(source@, file@, project@),
{
    match c_source::parse_c(source) {
        Some(root) => hal_calls_of_tree(&root, file, project),
        None => Vec::new(),
    }
}

/// Collects the macros of a project: the names on whose value all the definitions in its
/// files agree.
pub fn build_project_macro_table(files: &[SourceFile]) -> (r: MacroTable)
    ensures
        r@ == macros::agreed_table(project_definitions(text::views(files@))),
{
    let ghost all = text::views(files@);
    let mut definitions: Vec<macros::Definition> = Vec::new();
    let mut i: usize = 0;
    while i < files.len()
        invariant
            i <= files@.len(),
            all == text::views(files@),
            text::views(definitions@) == project_definitions(all.take(i as int)),
        decreases files.len() - i,
    {
        assert(all.take(i + 1).drop_last() =~= all.take(i as int));
        assert(all.take(i + 1).last() == files@[i as int]@);
        let mut own: Vec<macros::Definition> = match c_source::parse_c(files[i].source.as_str()) {
            Some(root) => macros::settled_definitions(&root),
            None => Vec::new(),
        };
        let ghost added = own@;
        let ghost start = definitions@;
        definitions.append(&mut own);
        assert(text::views(start + added) =~= text::views(start) + text::views(added));
        i += 1;
    }
    assert(all.take(all.len() as int) =~= all);
    macros::merge_definitions(&definitions)
}

} // verus!
