use starlark::opcode::BcOpcode;
use starlark::profile::{BcInstrStat, BcProfile, ProfileError};

#[test]
fn report_while_disabled_fails() {
    let p = BcProfile::new();
    assert!(!p.enabled());
    assert_eq!(Err(ProfileError::BcProfilingNotEnabled), p.gen_csv());
}

#[test]
fn per_opcode_attributes_time_to_the_previous_opcode() {
    let mut p = BcProfile::new();
    p.enable_1();
    assert!(p.enabled());
    p.before_instr(BcOpcode::LoadLocal, 0);
    p.before_instr(BcOpcode::Return, 10);
    p.before_instr(BcOpcode::LoadLocal, 25);
    p.before_instr(BcOpcode::Return, 30);
    let csv = p.gen_csv().unwrap();
    let mut expected = String::from("Opcode,Count,Total time (s),Avg time (ns)\n");
    expected.push_str("TOTAL,3,0.000000030,10\n");
    expected.push_str("LoadLocal,2,0.000000015,7\n");
    expected.push_str("Return,1,0.000000015,15\n");
    for name in [
        "Const", "StoreLocal", "LoadModule", "ListNew", "ListOfN", "ForLoop", "IfNotBr",
        "ComprListAppend", "Continue", "Pop", "Def",
    ] {
        expected.push_str(&format!("{},0,0.000000000,0\n", name));
    }
    assert_eq!(expected, csv);
}

#[test]
fn per_opcode_counts_n_minus_one_samples() {
    let mut p = BcProfile::new();
    p.enable_1();
    let ops = [BcOpcode::Const, BcOpcode::Const, BcOpcode::Pop, BcOpcode::Const, BcOpcode::Return];
    for (i, o) in ops.iter().enumerate() {
        p.before_instr(*o, 1_000_000_000 * i as u64);
    }
    let csv = p.gen_csv().unwrap();
    assert!(csv.contains("\nTOTAL,4,4.000000000,1000000000\n"));
    assert!(csv.contains("\nConst,3,3.000000000,1000000000\n"));
    assert!(csv.contains("\nPop,1,1.000000000,1000000000\n"));
    assert!(csv.contains("\nReturn,0,0.000000000,0\n"));
}

#[test]
fn enabling_discards_earlier_data() {
    let mut p = BcProfile::new();
    p.enable_1();
    p.before_instr(BcOpcode::Pop, 0);
    p.before_instr(BcOpcode::Pop, 5);
    p.enable_1();
    p.before_instr(BcOpcode::Def, 7);
    assert!(p.gen_csv().unwrap().contains("\nTOTAL,0,0.000000000,0\n"));
}

#[test]
fn clock_going_back_counts_as_no_time() {
    let mut p = BcProfile::new();
    p.enable_1();
    p.before_instr(BcOpcode::Pop, 50);
    p.before_instr(BcOpcode::Pop, 20);
    assert!(p.gen_csv().unwrap().contains("\nPop,1,0.000000000,0\n"));
}

#[test]
fn per_pair_counts_adjacent_pairs() {
    let mut p = BcProfile::new();
    p.enable_2();
    for o in [BcOpcode::LoadLocal, BcOpcode::Return, BcOpcode::LoadLocal, BcOpcode::Return] {
        p.before_instr(o, 0);
    }
    let csv = p.gen_csv().unwrap();
    assert_eq!(
        "Opcode[0],Opcode[1],Count,Count / Total\nLoadLocal,Return,2,0.667\nReturn,LoadLocal,1,0.333\n",
        csv
    );
}

#[test]
fn per_pair_fractions_sum_to_one() {
    let mut p = BcProfile::new();
    p.enable_2();
    for o in [
        BcOpcode::Const, BcOpcode::Pop, BcOpcode::Const, BcOpcode::Pop, BcOpcode::Def,
        BcOpcode::Const, BcOpcode::Return,
    ] {
        p.before_instr(o, 0);
    }
    let csv = p.gen_csv().unwrap();
    let mut thousandths = 0;
    for line in csv.lines().skip(1) {
        let frac = line.rsplit(',').next().unwrap();
        let (whole, part) = frac.split_once('.').unwrap();
        assert_eq!(3, part.len());
        thousandths += whole.parse::<i64>().unwrap() * 1000 + part.parse::<i64>().unwrap();
    }
    assert!((thousandths - 1000).abs() <= 3);
    // Ties are broken by the pairs' natural order.
    assert!(csv.contains("\nConst,Pop,2,0.333\nConst,Return,1,0.167\nPop,Const,1,0.167\nPop,Def,1,0.167\nDef,Const,1,0.167\n"));
}

#[test]
fn stat_sum_and_average() {
    let stats = vec![
        BcInstrStat { count: 2, total_time: 9 },
        BcInstrStat { count: 1, total_time: 3 },
    ];
    let total = BcInstrStat::sum(&stats);
    assert_eq!(BcInstrStat { count: 3, total_time: 12 }, total);
    assert_eq!(4, total.avg_time());
    assert_eq!(0, BcInstrStat { count: 0, total_time: 5 }.avg_time());
    let big = vec![
        BcInstrStat { count: u64::MAX, total_time: 1 },
        BcInstrStat { count: 1, total_time: 1 },
    ];
    assert_eq!(u64::MAX, BcInstrStat::sum(&big).count);
}
