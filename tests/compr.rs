use starlark::compiler::{
    write_stmts, BcInstr, BcWriter, ConstValue, DefCompiled, ExprCompiled, InstrDefData, Operand,
    ParameterCompiled, StmtCompiled,
};
use starlark::opcode::BcOpcode;

/// Compiles `def test(...): return <e>` and gives the opcodes of its body.
fn body_opcodes(e: ExprCompiled) -> Vec<BcOpcode> {
    let mut bc = BcWriter::new();
    write_stmts(&vec![StmtCompiled::Return(e)], &mut bc);
    bc.opcodes()
}

fn test_instrs(expected: &[BcOpcode], e: ExprCompiled) {
    assert_eq!(expected.to_vec(), body_opcodes(e));
}

// def test(): return [x for x in []]
#[test]
fn test_no_loop_if_top_collection_is_empty() {
    let x = 0;
    test_instrs(
        &[BcOpcode::ListNew, BcOpcode::Return],
        ExprCompiled::compr(
            Operand::Local(x),
            x,
            Operand::Const(ConstValue::EmptyList),
            vec![],
        ),
    );
}

// def test(): return [x for x in D]
// D = {}
#[test]
fn test_no_loop_if_top_collection_is_empty_on_freeze() {
    let x = 0;
    let d = 0;
    let e = ExprCompiled::compr(Operand::Local(x), x, Operand::Module(d), vec![]);
    // Not known to be empty when compiled: the loop is still there.
    let mut before = BcWriter::new();
    e.write_bc(&mut before);
    assert!(before.opcodes().contains(&BcOpcode::ForLoop));
    let globals = vec![Some(ConstValue::EmptyDict)];
    test_instrs(&[BcOpcode::ListNew, BcOpcode::Return], e.freeze(&globals));
}

// def test(y): return [x for x in y if True]
#[test]
fn test_if_true_clause() {
    let y = 0;
    let x = 1;
    test_instrs(
        &[
            BcOpcode::ListNew,
            BcOpcode::LoadLocal,
            BcOpcode::ForLoop,
            BcOpcode::StoreLocal,
            BcOpcode::LoadLocal,
            BcOpcode::ComprListAppend,
            BcOpcode::Continue,
            BcOpcode::Return,
        ],
        ExprCompiled::compr(
            Operand::Local(x),
            x,
            Operand::Local(y),
            vec![Operand::Const(ConstValue::Bool(true))],
        ),
    );
}

// def test(y): return [x for x in y if C]
// C = False
// C = True
#[test]
fn test_if_true_clause_on_freeze() {
    let y = 0;
    let x = 1;
    let c = 0;
    let e = ExprCompiled::compr(Operand::Local(x), x, Operand::Local(y), vec![Operand::Module(c)]);
    let globals = vec![Some(ConstValue::Bool(true))];
    test_instrs(
        &[
            BcOpcode::ListNew,
            BcOpcode::LoadLocal,
            BcOpcode::ForLoop,
            BcOpcode::StoreLocal,
            BcOpcode::LoadLocal,
            BcOpcode::ComprListAppend,
            BcOpcode::Continue,
            BcOpcode::Return,
        ],
        e.freeze(&globals),
    );
}

#[test]
fn freeze_gives_the_instructions_of_a_known_constant() {
    let known = ExprCompiled::compr(
        Operand::Local(1),
        1,
        Operand::Local(0),
        vec![Operand::Const(ConstValue::Bool(true))],
    );
    let late = ExprCompiled::compr(Operand::Local(1), 1, Operand::Local(0), vec![Operand::Module(3)])
        .freeze(&vec![None, None, None, Some(ConstValue::Bool(true))]);
    let mut a = BcWriter::new();
    known.write_bc(&mut a);
    let mut b = BcWriter::new();
    late.write_bc(&mut b);
    assert_eq!(a.instrs(), b.instrs());
}

#[test]
fn false_filter_skips_every_element() {
    let e = ExprCompiled::compr(
        Operand::Local(1),
        1,
        Operand::Local(0),
        vec![Operand::Const(ConstValue::Bool(false))],
    );
    assert_eq!(
        vec![
            BcOpcode::ListNew,
            BcOpcode::LoadLocal,
            BcOpcode::ForLoop,
            BcOpcode::StoreLocal,
            BcOpcode::Continue,
            BcOpcode::Return,
        ],
        body_opcodes(e)
    );
}

#[test]
fn unknown_filter_jumps_over_the_append() {
    let e = ExprCompiled::compr(Operand::Local(1), 1, Operand::Local(0), vec![Operand::Local(2)]);
    let mut bc = BcWriter::new();
    e.write_bc(&mut bc);
    assert_eq!(
        &vec![
            BcInstr::ListNew,
            BcInstr::LoadLocal(0),
            BcInstr::ForLoop,
            BcInstr::StoreLocal(1),
            BcInstr::LoadLocal(2),
            BcInstr::IfNotBr(2),
            BcInstr::LoadLocal(1),
            BcInstr::ComprListAppend,
            BcInstr::Continue,
        ],
        bc.instrs()
    );
}

#[test]
fn unresolved_binding_stays_after_freeze() {
    let e = ExprCompiled::compr(Operand::Local(1), 1, Operand::Module(5), vec![]);
    let frozen = e.freeze(&vec![Some(ConstValue::EmptyList)]);
    assert!(body_opcodes(frozen).contains(&BcOpcode::ForLoop));
}

#[test]
fn list_display_pops_its_elements() {
    let e = ExprCompiled::List(vec![
        Operand::Const(ConstValue::Int(1)),
        Operand::Local(0),
    ]);
    let mut bc = BcWriter::new();
    e.write_bc(&mut bc);
    assert_eq!(
        &vec![
            BcInstr::Const(ConstValue::Int(1)),
            BcInstr::LoadLocal(0),
            BcInstr::ListOfN(2),
        ],
        bc.instrs()
    );
    let mut empty = BcWriter::new();
    ExprCompiled::List(vec![]).write_bc(&mut empty);
    assert_eq!(&vec![BcInstr::ListNew], empty.instrs());
}

#[test]
fn def_pushes_defaults_then_return_type_then_builds() {
    // def f(a, b = 1, *args, c = x, **kw) -> T
    let def = DefCompiled {
        function_name: "f".to_string(),
        params: vec![
            ParameterCompiled::Normal("a".to_string()),
            ParameterCompiled::WithDefaultValue(
                "b".to_string(),
                ExprCompiled::Operand(Operand::Const(ConstValue::Int(1))),
            ),
            ParameterCompiled::Args("args".to_string()),
            ParameterCompiled::WithDefaultValue(
                "c".to_string(),
                ExprCompiled::Operand(Operand::Module(0)),
            ),
            ParameterCompiled::KWArgs("kw".to_string()),
        ],
        return_type: Some(ExprCompiled::Operand(Operand::Module(1))),
        info: 7,
    };
    let mut bc = BcWriter::new();
    def.write_bc(&mut bc);
    assert_eq!(
        &vec![
            BcInstr::Const(ConstValue::Int(1)),
            BcInstr::LoadModule(0),
            BcInstr::LoadModule(1),
            BcInstr::Def(3, 0),
        ],
        bc.instrs()
    );
    let d: &InstrDefData = bc.def_data(0);
    assert_eq!("f", d.function_name);
    assert_eq!(Some(2), d.return_type);
    assert_eq!(7, d.info);
    assert!(matches!(&d.params[0], ParameterCompiled::Normal(n) if n == "a"));
    assert!(matches!(&d.params[1], ParameterCompiled::WithDefaultValue(n, 0) if n == "b"));
    assert!(matches!(&d.params[2], ParameterCompiled::Args(n) if n == "args"));
    assert!(matches!(&d.params[3], ParameterCompiled::WithDefaultValue(n, 1) if n == "c"));
    assert!(matches!(&d.params[4], ParameterCompiled::KWArgs(n) if n == "kw"));
}

#[test]
fn def_without_defaults_pops_nothing() {
    let def = DefCompiled {
        function_name: "g".to_string(),
        params: vec![ParameterCompiled::NoArgs],
        return_type: None,
        info: 0,
    };
    let mut bc = BcWriter::new();
    bc.write(BcInstr::Pop);
    def.write_bc(&mut bc);
    assert_eq!(&vec![BcInstr::Pop, BcInstr::Def(0, 0)], bc.instrs());
    assert_eq!(None, bc.def_data(0).return_type);
}
