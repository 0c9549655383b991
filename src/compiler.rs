//! Compilation of expressions, comprehensions and function definitions to
//! bytecode, with the loop elision that applies when the source of a
//! comprehension is known to be empty or a filter is known to hold.
use vstd::prelude::*;
use crate::opcode::BcOpcode;

verus! {

/// A constant that the compiler may see in place of an expression.
#[derive(Clone, Copy, Debug, PartialEq, Eq, Structural)]
pub enum ConstValue {
    NoneValue,
    Bool(bool),
    Int(i64),
    EmptyList,
    EmptyDict,
    EmptyTuple,
}

/// A literal empty container.
pub open spec fn is_empty_container(c: ConstValue) -> bool {
    c is EmptyList || c is EmptyDict || c is EmptyTuple
}

/// The truth value of a constant.
pub open spec fn const_truth(c: ConstValue) -> bool {
    match c {
        ConstValue::NoneValue => false,
        ConstValue::Bool(b) => b,
        ConstValue::Int(i) => i != 0,
        _ => false,
    }
}

/// A leaf expression: a constant, a local slot or a module-level binding.
#[derive(Clone, Copy, Debug, PartialEq, Eq, Structural)]
pub enum Operand {
    Const(ConstValue),
    Local(u32),
    Module(u32),
}

/// What the compiler knows of the truth of an operand.
pub open spec fn operand_truth(o: Operand) -> Option<bool> {
    match o {
        Operand::Const(c) => Some(const_truth(c)),
        _ => None,
    }
}

/// The operand is a literal empty container.
pub open spec fn is_empty_source(o: Operand) -> bool {
    o matches Operand::Const(c) && is_empty_container(c)
}

/// A compiled expression.
pub enum ExprCompiled {
    Operand(Operand),
    /// A list display.
    List(Vec<Operand>),
    /// `[item for var in source if conds...]`.
    Compr(Operand, u32, Operand, Vec<Operand>),
}

/// The mathematical form of a compiled expression.
pub enum ExprModel {
    Operand(Operand),
    List(Seq<Operand>),
    Compr(Operand, u32, Operand, Seq<Operand>),
}

impl View for ExprCompiled {
    type V = ExprModel;

    open spec fn view(&self) -> ExprModel {
        match self {
            ExprCompiled::Operand(o) => ExprModel::Operand(*o),
            ExprCompiled::List(v) => ExprModel::List(v@),
            ExprCompiled::Compr(item, var, source, conds) => ExprModel::Compr(
                *item,
                *var,
                *source,
                conds@,
            ),
        }
    }
}

/// One instruction.
#[derive(Clone, Copy, Debug, PartialEq, Eq, Structural)]
pub enum BcInstr {
    Const(ConstValue),
    LoadLocal(u32),
    StoreLocal(u32),
    LoadModule(u32),
    ListNew,
    /// Pops that many values into a new list.
    ListOfN(usize),
    ForLoop,
    /// Pops a value; if it is false, skips that many instructions.
    IfNotBr(usize),
    ComprListAppend,
    Continue,
    Return,
    Pop,
    /// Pops that many values and builds the function whose data is at that
    /// index of the writer's definitions.
    Def(usize, usize),
}

impl BcInstr {
    pub open spec fn spec_opcode(self) -> BcOpcode {
        match self {
            BcInstr::Const(_) => BcOpcode::Const,
            BcInstr::LoadLocal(_) => BcOpcode::LoadLocal,
            BcInstr::StoreLocal(_) => BcOpcode::StoreLocal,
            BcInstr::LoadModule(_) => BcOpcode::LoadModule,
            BcInstr::ListNew => BcOpcode::ListNew,
            BcInstr::ListOfN(_) => BcOpcode::ListOfN,
            BcInstr::ForLoop => BcOpcode::ForLoop,
            BcInstr::IfNotBr(_) => BcOpcode::IfNotBr,
            BcInstr::ComprListAppend => BcOpcode::ComprListAppend,
            BcInstr::Continue => BcOpcode::Continue,
            BcInstr::Return => BcOpcode::Return,
            BcInstr::Pop => BcOpcode::Pop,
            BcInstr::Def(_, _) => BcOpcode::Def,
        }
    }

    /// The instruction's opcode.
    pub fn opcode(&self) -> (r: BcOpcode)
        ensures
            r == self.spec_opcode(),
    {
        match self {
            BcInstr::Const(_) => BcOpcode::Const,
            BcInstr::LoadLocal(_) => BcOpcode::LoadLocal,
            BcInstr::StoreLocal(_) => BcOpcode::StoreLocal,
            BcInstr::LoadModule(_) => BcOpcode::LoadModule,
            BcInstr::ListNew => BcOpcode::ListNew,
            BcInstr::ListOfN(_) => BcOpcode::ListOfN,
            BcInstr::ForLoop => BcOpcode::ForLoop,
            BcInstr::IfNotBr(_) => BcOpcode::IfNotBr,
            BcInstr::ComprListAppend => BcOpcode::ComprListAppend,
            BcInstr::Continue => BcOpcode::Continue,
            BcInstr::Return => BcOpcode::Return,
            BcInstr::Pop => BcOpcode::Pop,
            BcInstr::Def(_, _) => BcOpcode::Def,
        }
    }
}

// ---------------------------------------------------------------------------
// What each form compiles to
// ---------------------------------------------------------------------------

/// The instructions that push an operand.
pub open spec fn operand_bc(o: Operand) -> Seq<BcInstr> {
    match o {
        Operand::Const(c) => seq![BcInstr::Const(c)],
        Operand::Local(l) => seq![BcInstr::LoadLocal(l)],
        Operand::Module(m) => seq![BcInstr::LoadModule(m)],
    }
}

/// The instructions that push each operand of `s`, in order.
pub open spec fn operands_bc(s: Seq<Operand>) -> Seq<BcInstr>
    decreases s.len(),
{
    if s.len() == 0 {
        Seq::empty()
    } else {
        operands_bc(s.drop_last()) + operand_bc(s.last())
    }
}

/// The loop body of a comprehension from filter `i` on: a filter known to
/// hold compiles to nothing, one known to fail skips the rest, and any other
/// jumps over the rest when false; then the item is appended.
pub open spec fn body_bc(item: Operand, conds: Seq<Operand>, i: int) -> Seq<BcInstr>
    decreases conds.len() - i,
{
    if i < 0 || i >= conds.len() {
        operand_bc(item).push(BcInstr::ComprListAppend)
    } else {
        match operand_truth(conds[i]) {
            Some(true) => body_bc(item, conds, i + 1),
            Some(false) => Seq::empty(),
            None => {
                let rest = body_bc(item, conds, i + 1);
                operand_bc(conds[i]).push(BcInstr::IfNotBr(rest.len() as usize)) + rest
            },
        }
    }
}

/// The instructions that push the value of an expression.
pub open spec fn expr_bc(e: ExprModel) -> Seq<BcInstr> {
    match e {
        ExprModel::Operand(o) => operand_bc(o),
        ExprModel::List(s) => if s.len() == 0 {
            seq![BcInstr::ListNew]
        } else {
            operands_bc(s).push(BcInstr::ListOfN(s.len() as usize))
        },
        ExprModel::Compr(item, var, source, conds) => if is_empty_source(source) {
            seq![BcInstr::ListNew]
        } else {
            seq![BcInstr::ListNew] + operand_bc(source) + seq![
                BcInstr::ForLoop,
                BcInstr::StoreLocal(var),
            ] + body_bc(item, conds, 0) + seq![BcInstr::Continue]
        },
    }
}

// ---------------------------------------------------------------------------
// Elision
// ---------------------------------------------------------------------------

/// The filters of `conds` that are not known to hold.
pub open spec fn drop_true(conds: Seq<Operand>) -> Seq<Operand>
    decreases conds.len(),
{
    if conds.len() == 0 {
        Seq::empty()
    } else if operand_truth(conds.last()) == Some(true) {
        drop_true(conds.drop_last())
    } else {
        drop_true(conds.drop_last()).push(conds.last())
    }
}

/// The comprehension `[item for var in source if conds...]` after elision:
/// an empty list where the source is a literal empty container, and without
/// the filters that are known to hold otherwise.
pub open spec fn compr_spec(item: Operand, var: u32, source: Operand, conds: Seq<Operand>) -> ExprModel {
    if is_empty_source(source) {
        ExprModel::List(Seq::empty())
    } else {
        ExprModel::Compr(item, var, source, drop_true(conds))
    }
}

/// An operand once module-level bindings are known: a binding with a known
/// value becomes that constant.
pub open spec fn freeze_operand(o: Operand, globals: Seq<Option<ConstValue>>) -> Operand {
    match o {
        Operand::Module(m) => if m < globals.len() && globals[m as int] is Some {
            Operand::Const(globals[m as int]->0)
        } else {
            o
        },
        _ => o,
    }
}

/// An expression once module-level bindings are known, with the elision of
/// comprehensions applied again.
pub open spec fn freeze_spec(e: ExprModel, globals: Seq<Option<ConstValue>>) -> ExprModel {
    match e {
        ExprModel::Operand(o) => ExprModel::Operand(freeze_operand(o, globals)),
        ExprModel::List(s) => ExprModel::List(s.map_values(|o: Operand| freeze_operand(o, globals))),
        ExprModel::Compr(item, var, source, conds) => compr_spec(
            freeze_operand(item, globals),
            var,
            freeze_operand(source, globals),
            conds.map_values(|o: Operand| freeze_operand(o, globals)),
        ),
    }
}

fn freeze_operand_exec(o: Operand, globals: &Vec<Option<ConstValue>>) -> (r: Operand)
    ensures
        r == freeze_operand(o, globals@),
{
    match o {
        Operand::Module(m) => {
            if (m as usize) < globals.len() {
                match globals[m as usize] {
                    Some(c) => Operand::Const(c),
                    None => o,
                }
            } else {
                o
            }
        },
        _ => o,
    }
}

fn freeze_operands(s: &Vec<Operand>, globals: &Vec<Option<ConstValue>>) -> (r: Vec<Operand>)
    ensures
        r@ == s@.map_values(|o: Operand| freeze_operand(o, globals@)),
{
    let mut r: Vec<Operand> = Vec::new();
    let mut i: usize = 0;
    while i < s.len()
        invariant
            i <= s@.len(),
            r@ == s@.subrange(0, i as int).map_values(|o: Operand| freeze_operand(o, globals@)),
        decreases s@.len() - i,
    {
        let f = freeze_operand_exec(s[i], globals);
        r.push(f);
        assert(s@.subrange(0, i + 1).map_values(|o: Operand| freeze_operand(o, globals@)) =~= s@.subrange(
            0,
            i as int,
        ).map_values(|o: Operand| freeze_operand(o, globals@)).push(f));
        i += 1;
    }
    assert(s@.subrange(0, s@.len() as int) =~= s@);
    r
}

impl ExprCompiled {
    /// Builds a comprehension, eliding its loop when the source is a literal
    /// empty container and dropping the filters known to hold.
    pub fn compr(item: Operand, var: u32, source: Operand, conds: Vec<Operand>) -> (r: ExprCompiled)
        ensures
            r@ == compr_spec(item, var, source, conds@),
    {
        let empty = match source {
            Operand::Const(c) => match c {
                ConstValue::EmptyList => true,
                ConstValue::EmptyDict => true,
                ConstValue::EmptyTuple => true,
                _ => false,
            },
            _ => false,
        };
        if empty {
            return ExprCompiled::List(Vec::new());
        }
        let mut kept: Vec<Operand> = Vec::new();
        let mut i: usize = 0;
        while i < conds.len()
            invariant
                i <= conds@.len(),
                kept@ == drop_true(conds@.subrange(0, i as int)),
            decreases conds@.len() - i,
        {
            let c = conds[i];
            assert(conds@.subrange(0, i + 1).drop_last() =~= conds@.subrange(0, i as int));
            assert(conds@.subrange(0, i + 1).last() == c);
            let holds = match c {
                Operand::Const(k) => match k {
                    ConstValue::Bool(b) => b,
                    ConstValue::Int(n) => n != 0,
                    _ => false,
                },
                _ => false,
            };
            if !holds {
                kept.push(c);
            }
            i += 1;
        }
        assert(conds@.subrange(0, conds@.len() as int) =~= conds@);
        ExprCompiled::Compr(item, var, source, kept)
    }

    /// The expression once module-level bindings are known: each binding
    /// whose value is known is replaced by that constant, and comprehensions
    /// are elided again as if the constant had been written in their place.
    pub fn freeze(self, globals: &Vec<Option<ConstValue>>) -> (r: ExprCompiled)
        ensures
            r@ == freeze_spec(self@, globals@),
    {
        match self {
            ExprCompiled::Operand(o) => ExprCompiled::Operand(freeze_operand_exec(o, globals)),
            ExprCompiled::List(v) => ExprCompiled::List(freeze_operands(&v, globals)),
            ExprCompiled::Compr(item, var, source, conds) => {
                let fi = freeze_operand_exec(item, globals);
                let fs = freeze_operand_exec(source, globals);
                let fc = freeze_operands(&conds, globals);
                ExprCompiled::compr(fi, var, fs, fc)
            },
        }
    }
}

// ---------------------------------------------------------------------------
// Emission
// ---------------------------------------------------------------------------

/// A parameter of a compiled definition, whose default value is a `T`.
pub enum ParameterCompiled<T> {
    Normal(String),
    WithDefaultValue(String, T),
    NoArgs,
    Args(String),
    KWArgs(String),
}

/// What the instruction that builds a function carries: the function's
/// name, its parameters with each default replaced by the position of its
/// value among the popped operands, and that position for the return type.
pub struct InstrDefData {
    pub function_name: String,
    pub params: Vec<ParameterCompiled<usize>>,
    pub return_type: Option<usize>,
    pub info: u32,
}

/// The instruction stream being written, with the data of the definitions
/// it builds.
pub struct BcWriter {
    instrs: Vec<BcInstr>,
    defs: Vec<InstrDefData>,
}

impl View for BcWriter {
    type V = Seq<BcInstr>;

    closed spec fn view(&self) -> Seq<BcInstr> {
        self.instrs@
    }
}

impl BcWriter {
    /// The data of the definitions written so far.
    pub closed spec fn defs(&self) -> Seq<InstrDefData> {
        self.defs@
    }

    /// An empty stream.
    pub fn new() -> (r: BcWriter)
        ensures
            r@ == Seq::<BcInstr>::empty(),
            r.defs() == Seq::<InstrDefData>::empty(),
    {
        BcWriter { instrs: Vec::new(), defs: Vec::new() }
    }

    /// Appends one instruction.
    pub fn write(&mut self, instr: BcInstr)
        ensures
            final(self)@ == old(self)@.push(instr),
            final(self).defs() == old(self).defs(),
    {
        self.instrs.push(instr);
    }

    fn patch(&mut self, pos: usize, instr: BcInstr)
        requires
            pos < old(self)@.len(),
        ensures
            final(self)@ == old(self)@.update(pos as int, instr),
            final(self).defs() == old(self).defs(),
    {
        self.instrs.set(pos, instr);
    }

    /// The number of instructions written.
    pub fn len(&self) -> (r: usize)
        ensures
            r == self@.len(),
    {
        self.instrs.len()
    }

    /// The instructions written.
    pub fn instrs(&self) -> (r: &Vec<BcInstr>)
        ensures
            r@ == self@,
    {
        &self.instrs
    }

    /// The data of the definition at `i`.
    pub fn def_data(&self, i: usize) -> (r: &InstrDefData)
        requires
            i < self.defs().len(),
        ensures
            *r == self.defs()[i as int],
    {
        &self.defs[i]
    }

    /// The opcodes of the instructions written, in order.
    pub fn opcodes(&self) -> (r: Vec<BcOpcode>)
        ensures
            r@ == self@.map_values(|i: BcInstr| i.spec_opcode()),
    {
        let mut r: Vec<BcOpcode> = Vec::new();
        let mut k: usize = 0;
        while k < self.instrs.len()
            invariant
                k <= self@.len(),
                r@ == self@.subrange(0, k as int).map_values(|i: BcInstr| i.spec_opcode()),
            decreases self@.len() - k,
        {
            let o = self.instrs[k].opcode();
            r.push(o);
            assert(self@.subrange(0, k + 1).map_values(|i: BcInstr| i.spec_opcode()) =~= self@.subrange(
                0,
                k as int,
            ).map_values(|i: BcInstr| i.spec_opcode()).push(o));
            k += 1;
        }
        assert(self@.subrange(0, self@.len() as int) =~= self@);
        r
    }
}

fn write_operand(o: Operand, bc: &mut BcWriter)
    ensures
        final(bc)@ == old(bc)@ + operand_bc(o),
        final(bc).defs() == old(bc).defs(),
{
    match o {
        Operand::Const(c) => bc.write(BcInstr::Const(c)),
        Operand::Local(l) => bc.write(BcInstr::LoadLocal(l)),
        Operand::Module(m) => bc.write(BcInstr::LoadModule(m)),
    }
    assert(final(bc)@ =~= old(bc)@ + operand_bc(o));
}

fn write_body(item: Operand, conds: &Vec<Operand>, i: usize, bc: &mut BcWriter)
    requires
        i <= conds@.len(),
    ensures
        final(bc)@ == old(bc)@ + body_bc(item, conds@, i as int),
        final(bc).defs() == old(bc).defs(),
    decreases conds@.len() - i,
{
    if i >= conds.len() {
        write_operand(item, bc);
        bc.write(BcInstr::ComprListAppend);
        assert(final(bc)@ =~= old(bc)@ + body_bc(item, conds@, i as int));
        return;
    }
    let c = conds[i];
    let truth: Option<bool> = match c {
        Operand::Const(k) => Some(
            match k {
                ConstValue::Bool(b) => b,
                ConstValue::Int(n) => n != 0,
                _ => false,
            },
        ),
        _ => None,
    };
    match truth {
        Some(true) => write_body(item, conds, i + 1, bc),
        Some(false) => {
            assert(old(bc)@ + body_bc(item, conds@, i as int) =~= old(bc)@);
        },
        None => {
            write_operand(c, bc);
            let pos = bc.len();
            bc.write(BcInstr::IfNotBr(0));
            let ghost mid = bc@;
            write_body(item, conds, i + 1, bc);
            let skip = bc.len() - pos - 1;
            bc.patch(pos, BcInstr::IfNotBr(skip));
            proof {
                let rest = body_bc(item, conds@, i + 1);
                assert(skip == rest.len());
                assert(final(bc)@ =~= old(bc)@ + (operand_bc(c).push(BcInstr::IfNotBr(skip))
                    + rest));
            }
        },
    }
}

impl ExprCompiled {
    /// Writes the instructions that push the value of the expression.
    pub fn write_bc(&self, bc: &mut BcWriter)
        ensures
            final(bc)@ == old(bc)@ + expr_bc(self@),
            final(bc).defs() == old(bc).defs(),
    {
        match self {
            ExprCompiled::Operand(o) => write_operand(*o, bc),
            ExprCompiled::List(v) => {
                if v.len() == 0 {
                    bc.write(BcInstr::ListNew);
                    assert(final(bc)@ =~= old(bc)@ + expr_bc(self@));
                } else {
                    let mut k: usize = 0;
                    while k < v.len()
                        invariant
                            k <= v@.len(),
                            bc@ == old(bc)@ + operands_bc(v@.subrange(0, k as int)),
                            bc.defs() == old(bc).defs(),
                        decreases v@.len() - k,
                    {
                        write_operand(v[k], bc);
                        assert(v@.subrange(0, k + 1).drop_last() =~= v@.subrange(0, k as int));
                        k += 1;
                    }
                    assert(v@.subrange(0, v@.len() as int) =~= v@);
                    bc.write(BcInstr::ListOfN(v.len()));
                    assert(final(bc)@ =~= old(bc)@ + expr_bc(self@));
                }
            },
            ExprCompiled::Compr(item, var, source, conds) => {
                let empty = match source {
                    Operand::Const(c) => match c {
                        ConstValue::EmptyList => true,
                        ConstValue::EmptyDict => true,
                        ConstValue::EmptyTuple => true,
                        _ => false,
                    },
                    _ => false,
                };
                if empty {
                    bc.write(BcInstr::ListNew);
                    assert(final(bc)@ =~= old(bc)@ + expr_bc(self@));
                } else {
                    bc.write(BcInstr::ListNew);
                    write_operand(*source, bc);
                    bc.write(BcInstr::ForLoop);
                    bc.write(BcInstr::StoreLocal(*var));
                    write_body(*item, conds, 0, bc);
                    bc.write(BcInstr::Continue);
                    assert(final(bc)@ =~= old(bc)@ + expr_bc(self@));
                }
            },
        }
    }
}

/// A statement of a compiled function body.
pub enum StmtCompiled {
    Expr(ExprCompiled),
    Return(ExprCompiled),
}

/// The instructions of one statement.
pub open spec fn stmt_bc(s: StmtCompiled) -> Seq<BcInstr> {
    match s {
        StmtCompiled::Expr(e) => expr_bc(e@).push(BcInstr::Pop),
        StmtCompiled::Return(e) => expr_bc(e@).push(BcInstr::Return),
    }
}

/// The instructions of a sequence of statements.
pub open spec fn stmts_bc(s: Seq<StmtCompiled>) -> Seq<BcInstr>
    decreases s.len(),
{
    if s.len() == 0 {
        Seq::empty()
    } else {
        stmts_bc(s.drop_last()) + stmt_bc(s.last())
    }
}

impl StmtCompiled {
    /// Writes the instructions of the statement.
    pub fn write_bc(&self, bc: &mut BcWriter)
        ensures
            final(bc)@ == old(bc)@ + stmt_bc(*self),
            final(bc).defs() == old(bc).defs(),
    {
        match self {
            StmtCompiled::Expr(e) => {
                e.write_bc(bc);
                bc.write(BcInstr::Pop);
            },
            StmtCompiled::Return(e) => {
                e.write_bc(bc);
                bc.write(BcInstr::Return);
            },
        }
        assert(final(bc)@ =~= old(bc)@ + stmt_bc(*self));
    }
}

/// Writes the instructions of a function body.
pub fn write_stmts(stmts: &Vec<StmtCompiled>, bc: &mut BcWriter)
    ensures
        final(bc)@ == old(bc)@ + stmts_bc(stmts@),
        final(bc).defs() == old(bc).defs(),
{
    let mut k: usize = 0;
    while k < stmts.len()
        invariant
            k <= stmts@.len(),
            bc@ == old(bc)@ + stmts_bc(stmts@.subrange(0, k as int)),
            bc.defs() == old(bc).defs(),
        decreases stmts@.len() - k,
    {
        stmts[k].write_bc(bc);
        assert(stmts@.subrange(0, k + 1).drop_last() =~= stmts@.subrange(0, k as int));
        assert(bc@ =~= old(bc)@ + stmts_bc(stmts@.subrange(0, k + 1)));
        k += 1;
    }
    assert(stmts@.subrange(0, stmts@.len() as int) =~= stmts@);
}

/// A compiled function definition.
pub struct DefCompiled {
    pub function_name: String,
    pub params: Vec<ParameterCompiled<ExprCompiled>>,
    pub return_type: Option<ExprCompiled>,
    pub info: u32,
}

/// The number of parameters among the first `n` that carry a default.
pub open spec fn default_count(params: Seq<ParameterCompiled<ExprCompiled>>, n: int) -> nat
    decreases n,
{
    if n <= 0 {
        0
    } else {
        default_count(params, n - 1) + if params[n - 1] is WithDefaultValue {
            1nat
        } else {
            0nat
        }
    }
}

/// The instructions that push the defaults of the first `n` parameters.
pub open spec fn defaults_bc(params: Seq<ParameterCompiled<ExprCompiled>>, n: int) -> Seq<
    BcInstr,
>
    decreases n,
{
    if n <= 0 {
        Seq::empty()
    } else {
        defaults_bc(params, n - 1) + match params[n - 1] {
            ParameterCompiled::WithDefaultValue(_, e) => expr_bc(e@),
            _ => Seq::empty(),
        }
    }
}

/// `q` is parameter `p` with its default, if any, replaced by `index`.
pub open spec fn param_indexed(p: ParameterCompiled<ExprCompiled>, q: ParameterCompiled<usize>, index: nat) -> bool {
    match p {
        ParameterCompiled::Normal(n) => q matches ParameterCompiled::Normal(m) && m@ == n@,
        ParameterCompiled::WithDefaultValue(n, _) => q matches ParameterCompiled::WithDefaultValue(
            m,
            k,
        ) && m@ == n@ && k == index,
        ParameterCompiled::NoArgs => q is NoArgs,
        ParameterCompiled::Args(n) => q matches ParameterCompiled::Args(m) && m@ == n@,
        ParameterCompiled::KWArgs(n) => q matches ParameterCompiled::KWArgs(m) && m@ == n@,
    }
}

impl DefCompiled {
    /// The number of operands the definition's instruction pops.
    pub open spec fn pops(&self) -> nat {
        default_count(self.params@, self.params@.len() as int) + if self.return_type is Some {
            1nat
        } else {
            0nat
        }
    }

    /// Writes the instructions that build the function: first each default
    /// value in declaration order, then the return type, then one instruction
    /// that pops them all and refers to each by its position.
    pub fn write_bc(&self, bc: &mut BcWriter)
        requires
            self.params@.len() < usize::MAX,
        ensures
            final(bc)@ == old(bc)@ + defaults_bc(self.params@, self.params@.len() as int) + match self.return_type {
                Some(t) => expr_bc(t@),
                None => Seq::empty(),
            } + seq![BcInstr::Def(self.pops() as usize, old(bc).defs().len() as usize)],
            final(bc).defs().len() == old(bc).defs().len() + 1,
            final(bc).defs().drop_last() == old(bc).defs(),
            ({
                let d = final(bc).defs().last();
                &&& d.function_name@ == self.function_name@
                &&& d.info == self.info
                &&& d.params@.len() == self.params@.len()
                &&& forall|i: int|
                    0 <= i < self.params@.len() ==> param_indexed(
                        #[trigger] self.params@[i],
                        d.params@[i],
                        default_count(self.params@, i),
                    )
                &&& d.return_type == match self.return_type {
                    Some(_) => Some(default_count(self.params@, self.params@.len() as int) as usize),
                    None => None::<usize>,
                }
            }),
    {
        let mut value_count: usize = 0;
        let mut params: Vec<ParameterCompiled<usize>> = Vec::new();
        let mut k: usize = 0;
        while k < self.params.len()
            invariant
                k <= self.params@.len() < usize::MAX,
                value_count == default_count(self.params@, k as int),
                value_count <= k,
                bc@ == old(bc)@ + defaults_bc(self.params@, k as int),
                bc.defs() == old(bc).defs(),
                params@.len() == k,
                forall|i: int|
                    0 <= i < k ==> param_indexed(
                        #[trigger] self.params@[i],
                        params@[i],
                        default_count(self.params@, i),
                    ),
            decreases self.params@.len() - k,
        {
            let p = match &self.params[k] {
                ParameterCompiled::Normal(n) => ParameterCompiled::Normal(n.clone()),
                ParameterCompiled::WithDefaultValue(n, e) => {
                    e.write_bc(bc);
                    value_count += 1;
                    ParameterCompiled::WithDefaultValue(n.clone(), value_count - 1)
                },
                ParameterCompiled::NoArgs => ParameterCompiled::NoArgs,
                ParameterCompiled::Args(n) => ParameterCompiled::Args(n.clone()),
                ParameterCompiled::KWArgs(n) => ParameterCompiled::KWArgs(n.clone()),
            };
            params.push(p);
            assert(bc@ =~= old(bc)@ + defaults_bc(self.params@, k + 1));
            k += 1;
        }
        let return_type = match &self.return_type {
            Some(t) => {
                t.write_bc(bc);
                value_count += 1;
                Some(value_count - 1)
            },
            None => None,
        };
        let index = bc.defs.len();
        bc.defs.push(
            InstrDefData {
                function_name: self.function_name.clone(),
                params,
                return_type,
                info: self.info,
            },
        );
        bc.write(BcInstr::Def(value_count, index));
        assert(final(bc).defs().drop_last() =~= old(bc).defs());
        assert(final(bc)@ =~= old(bc)@ + defaults_bc(self.params@, self.params@.len() as int) + match self.return_type {
            Some(t) => expr_bc(t@),
            None => Seq::empty(),
        } + seq![BcInstr::Def(self.pops() as usize, old(bc).defs().len() as usize)]);
    }
}

// ---------------------------------------------------------------------------
// Elision on freeze
// ---------------------------------------------------------------------------

proof fn lemma_drop_true_frozen(conds: Seq<Operand>, globals: Seq<Option<ConstValue>>)
    ensures
        drop_true(drop_true(conds).map_values(|o: Operand| freeze_operand(o, globals)))
            == drop_true(conds.map_values(|o: Operand| freeze_operand(o, globals))),
    decreases conds.len(),
{
    let f = |o: Operand| freeze_operand(o, globals);
    if conds.len() > 0 {
        lemma_drop_true_frozen(conds.drop_last(), globals);
        assert(conds.map_values(f).drop_last() =~= conds.drop_last().map_values(f));
        let kept = drop_true(conds.drop_last());
        if operand_truth(conds.last()) != Some(true) {
            assert(kept.push(conds.last()).map_values(f) =~= kept.map_values(f).push(
                f(conds.last()),
            ));
            assert(kept.push(conds.last()).map_values(f).drop_last() =~= kept.map_values(f));
        }
    } else {
        assert(drop_true(conds).map_values(f) =~= Seq::<Operand>::empty());
        assert(conds.map_values(f) =~= Seq::<Operand>::empty());
    }
}

/// Eliding a comprehension when it is built and again once module-level
/// bindings are known gives the same expression, and so the same
/// instructions, as eliding it once with those bindings known from the start.
pub proof fn lemma_freeze_elides_as_compile(
    item: Operand,
    var: u32,
    source: Operand,
    conds: Seq<Operand>,
    globals: Seq<Option<ConstValue>>,
)
    ensures
        freeze_spec(compr_spec(item, var, source, conds), globals) == compr_spec(
            freeze_operand(item, globals),
            var,
            freeze_operand(source, globals),
            conds.map_values(|o: Operand| freeze_operand(o, globals)),
        ),
        expr_bc(freeze_spec(compr_spec(item, var, source, conds), globals)) == expr_bc(
            compr_spec(
                freeze_operand(item, globals),
                var,
                freeze_operand(source, globals),
                conds.map_values(|o: Operand| freeze_operand(o, globals)),
            ),
        ),
{
    if is_empty_source(source) {
        assert(Seq::<Operand>::empty().map_values(|o: Operand| freeze_operand(o, globals))
            =~= Seq::<Operand>::empty());
    } else {
        lemma_drop_true_frozen(conds, globals);
    }
}

proof fn lemma_drop_true_concat(a: Seq<Operand>, b: Seq<Operand>)
    ensures
        drop_true(a + b) == drop_true(a) + drop_true(b),
    decreases b.len(),
{
    if b.len() == 0 {
        assert(a + b =~= a);
        assert(drop_true(a) + drop_true(b) =~= drop_true(a));
    } else {
        assert((a + b).drop_last() =~= a + b.drop_last());
        lemma_drop_true_concat(a, b.drop_last());
        if operand_truth(b.last()) != Some(true) {
            assert(drop_true(a) + drop_true(b.drop_last()).push(b.last()) =~= (drop_true(a)
                + drop_true(b.drop_last())).push(b.last()));
        }
    }
}

proof fn lemma_drop_true_all_true(conds: Seq<Operand>)
    requires
        forall|i: int| 0 <= i < conds.len() ==> operand_truth(#[trigger] conds[i]) == Some(true),
    ensures
        drop_true(conds) == Seq::<Operand>::empty(),
    decreases conds.len(),
{
    if conds.len() > 0 {
        lemma_drop_true_all_true(conds.drop_last());
    }
}

/// A comprehension whose filters are all known to hold compiles with no
/// jump: each element is stored and appended unconditionally. One whose
/// first filter not known to hold is known to fail never appends. Whether a
/// filter is a literal or a module binding resolved on freeze makes no
/// difference (see `lemma_freeze_elides_as_compile`).
pub proof fn lemma_known_filters(item: Operand, var: u32, source: Operand, conds: Seq<Operand>)
    requires
        !is_empty_source(source),
    ensures
        (forall|i: int| 0 <= i < conds.len() ==> operand_truth(#[trigger] conds[i]) == Some(true))
            ==> expr_bc(compr_spec(item, var, source, conds)) == seq![BcInstr::ListNew]
            + operand_bc(source) + seq![BcInstr::ForLoop, BcInstr::StoreLocal(var)] + operand_bc(
            item,
        ) + seq![BcInstr::ComprListAppend, BcInstr::Continue],
        forall|k: int|
            0 <= k < conds.len() && operand_truth(#[trigger] conds[k]) == Some(false) && (forall|
                j: int,
            | 0 <= j < k ==> operand_truth(#[trigger] conds[j]) == Some(true)) ==> expr_bc(
                compr_spec(item, var, source, conds),
            ) == seq![BcInstr::ListNew] + operand_bc(source) + seq![
                BcInstr::ForLoop,
                BcInstr::StoreLocal(var),
                BcInstr::Continue,
            ],
{
    if forall|i: int| 0 <= i < conds.len() ==> operand_truth(#[trigger] conds[i]) == Some(true) {
        lemma_drop_true_all_true(conds);
        assert(body_bc(item, Seq::empty(), 0) == operand_bc(item).push(BcInstr::ComprListAppend));
        assert(expr_bc(compr_spec(item, var, source, conds)) =~= seq![BcInstr::ListNew]
            + operand_bc(source) + seq![BcInstr::ForLoop, BcInstr::StoreLocal(var)] + operand_bc(
            item,
        ) + seq![BcInstr::ComprListAppend, BcInstr::Continue]);
    }
    assert forall|k: int|
        0 <= k < conds.len() && operand_truth(#[trigger] conds[k]) == Some(false) && (forall|
            j: int,
        | 0 <= j < k ==> operand_truth(#[trigger] conds[j]) == Some(true)) implies expr_bc(
        compr_spec(item, var, source, conds),
    ) == seq![BcInstr::ListNew] + operand_bc(source) + seq![
        BcInstr::ForLoop,
        BcInstr::StoreLocal(var),
        BcInstr::Continue,
    ] by {
        let pre = conds.subrange(0, k);
        let rest = conds.subrange(k + 1, conds.len() as int);
        assert(conds =~= pre + seq![conds[k]] + rest);
        lemma_drop_true_all_true(pre);
        lemma_drop_true_concat(pre + seq![conds[k]], rest);
        lemma_drop_true_concat(pre, seq![conds[k]]);
        assert(seq![conds[k]].drop_last() =~= Seq::<Operand>::empty());
        assert(drop_true(Seq::<Operand>::empty()) == Seq::<Operand>::empty());
        assert(seq![conds[k]].last() == conds[k]);
        assert(drop_true(seq![conds[k]]) == drop_true(Seq::<Operand>::empty()).push(conds[k]));
        assert(drop_true(seq![conds[k]]) =~= seq![conds[k]]);
        let kept = drop_true(conds);
        assert(kept =~= seq![conds[k]] + drop_true(rest));
        assert(kept[0] == conds[k]);
        assert(body_bc(item, kept, 0) =~= Seq::<BcInstr>::empty());
        assert(expr_bc(compr_spec(item, var, source, conds)) =~= seq![BcInstr::ListNew]
            + operand_bc(source) + seq![
            BcInstr::ForLoop,
            BcInstr::StoreLocal(var),
            BcInstr::Continue,
        ]);
    }
}

} // verus!
