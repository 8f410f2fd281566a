use dreamberd_noodles_interpreter::interpreter::parsers::LifeTime;
use dreamberd_noodles_interpreter::interpreter::static_analysis::parsers::{
    function_expression, till_term, var_decl, VarDeclStep,
};
use dreamberd_noodles_interpreter::interpreter::static_analysis::{Analysis, HoistedVarInfo};

fn chars(s: &str) -> Vec<char> {
    s.chars().collect()
}

fn rest_of(s: &[char], k: usize) -> String {
    s[k..].iter().collect()
}

#[test]
fn function_expression_minimum() {
    let body = chars(" =>statement!");
    function_expression(&body, 0).unwrap();
}

#[test]
fn function_expression_arg_minimum() {
    let body = chars("arg =>statement!");
    function_expression(&body, 0).unwrap();
}

#[test]
fn function_expression_args_minimum() {
    let body = chars("arg,arg2,arg3,=>,arg5 =>statement!");
    function_expression(&body, 0).unwrap();
}

#[test]
fn till_term_statement() {
    let code = chars("statement!!statement2!");
    let k = till_term(&code, 0).unwrap();
    assert_eq!(rest_of(&code, k), "!!statement2!");
    let input = chars(&rest_of(&code, k)[2..]);

    let k = till_term(&input, 0).unwrap();
    assert_eq!(rest_of(&input, k), "!");
}

#[test]
fn till_term_with_strings() {
    let code = chars("statement!foo\"statement2\"bar!");
    let k = till_term(&code, 0).unwrap();
    assert_eq!(rest_of(&code, k), "!foo\"statement2\"bar!");
    let input = chars(&rest_of(&code, k)[1..]);

    let k = till_term(&input, 0).unwrap();
    assert_eq!(rest_of(&input, k), "!");
}

#[test]
fn till_term_skips_a_leading_string() {
    let code = chars("\"a!b\"c! d");
    let k = till_term(&code, 0).unwrap();
    assert_eq!(rest_of(&code, k), "! d");
    assert!(till_term(&chars("!x"), 0).is_none());
}

#[test]
fn var_decl_parts() {
    let code = chars("const var name<-3> = 1 + 2!!\nnext");
    match var_decl(&code, 0, 5) {
        VarDeclStep::Done { end, name_start, name_end, life_time, expr_start, hoisted_line } => {
            assert_eq!(hoisted_line, 2);
            assert_eq!(code[name_start..name_end].iter().collect::<String>(), "name");
            assert_eq!(life_time, LifeTime::Lines(-3));
            assert_eq!(expr_start, 21);
            assert_eq!(rest_of(&code, end), "\nnext");
        }
        other => panic!("unexpected {:?}", other),
    }
    // a negative life time moves no further up than line 0; others keep the line
    match var_decl(&chars("var var x<-9> = 1!"), 0, 4) {
        VarDeclStep::Done { hoisted_line, .. } => assert_eq!(hoisted_line, 0),
        other => panic!("unexpected {:?}", other),
    }
    match var_decl(&chars("var var x<2> = 1!"), 0, 4) {
        VarDeclStep::Done { hoisted_line, .. } => assert_eq!(hoisted_line, 4),
        other => panic!("unexpected {:?}", other),
    }
    assert_eq!(var_decl(&chars("var var x = 1!"), 0, 1), VarDeclStep::Error);
    assert_eq!(var_decl(&chars("var var x<1e> = 1!"), 0, 1), VarDeclStep::Error);
    assert_eq!(
        var_decl(&chars("var var x<99999999999999999999999> = 1!"), 0, 1),
        VarDeclStep::Panic
    );
}

#[test]
fn hoisted_func_empty() {
    let code = "  \n \n ";

    let analysis = Analysis::analyze(code);

    assert!(analysis.hoisted_vars.is_empty());
}

#[test]
fn hoisted_func_none() {
    let code = r#"
statement!
statement2!
"#;

    let analysis = Analysis::analyze(code);

    assert!(analysis.hoisted_vars.is_empty());
}

#[test]
fn hoisted_func_none2() {
    let code = r#"
statement!
var var something = 1!
statement2!
"#;

    let analysis = Analysis::analyze(code);

    assert!(analysis.hoisted_vars.is_empty());
}

#[test]
fn hoisted_func_minimum() {
    let code = r#"
statement!
statement2!
var var func<-2> = =>statement!
"#;

    let analysis = Analysis::analyze(code);

    assert_eq!(analysis.hoisted_vars.len(), 1);
    let func = &analysis.hoisted_vars[0];
    let func_expected = HoistedVarInfo {
        identifier: "func".to_string(),
        hoisted_line: 2,
        expr_index: 43,
    };
    assert_eq!(func, &func_expected);
}

#[test]
fn hoisted_func_minimum_wide() {
    let code = r#"
statement!
var var func<-1> =   =>   statement   !
statement2!
"#;

    let analysis = Analysis::analyze(code);

    assert_eq!(analysis.hoisted_vars.len(), 1);
    let func = &analysis.hoisted_vars[0];
    let func_expected = HoistedVarInfo {
        identifier: "func".to_string(),
        hoisted_line: 2,
        expr_index: 33,
    };
    assert_eq!(func, &func_expected);
}

#[test]
fn hoisted_func_arg_minimum() {
    let code = r#"
statement!
var var func<-1> = arg =>statement!
statement2!
"#;

    let analysis = Analysis::analyze(code);

    assert_eq!(analysis.hoisted_vars.len(), 1);
    let func = &analysis.hoisted_vars[0];
    let func_expected = HoistedVarInfo {
        identifier: "func".to_string(),
        hoisted_line: 2,
        expr_index: 31,
    };
    assert_eq!(func, &func_expected);
}

#[test]
fn hoisted_func_arg_wide() {
    let code = r#"
statement!
var var func<-1> = arg   =>   statement!
statement2!
"#;

    let analysis = Analysis::analyze(code);

    assert_eq!(analysis.hoisted_vars.len(), 1);
    let func = &analysis.hoisted_vars[0];
    let func_expected = HoistedVarInfo {
        identifier: "func".to_string(),
        hoisted_line: 2,
        expr_index: 31,
    };
    assert_eq!(func, &func_expected);
}

#[test]
fn hoisted_func_args_minimum() {
    let code = r#"
statement!
var var func<-1> = arg,arg2,arg3 =>   statement!
statement2!
"#;

    let analysis = Analysis::analyze(code);

    assert_eq!(analysis.hoisted_vars.len(), 1);
    let func = &analysis.hoisted_vars[0];
    let func_expected = HoistedVarInfo {
        identifier: "func".to_string(),
        hoisted_line: 2,
        expr_index: 31,
    };
    assert_eq!(func, &func_expected);
}

#[test]
fn hoisted_func_args_wide() {
    let code = r#"
statement!
var var func<-1> = arg , arg2, arg3, arg4 =>   statement!
statement2!
"#;

    let analysis = Analysis::analyze(code);

    assert_eq!(analysis.hoisted_vars.len(), 1);
    let func = &analysis.hoisted_vars[0];
    let func_expected = HoistedVarInfo {
        identifier: "func".to_string(),
        hoisted_line: 2,
        expr_index: 31,
    };
    assert_eq!(func, &func_expected);
}

#[test]
fn hoisted_func_args_weird() {
    let code = r#"
statement!
var var func<-1> = arg, => , => => statement!
statement2!
"#;

    let analysis = Analysis::analyze(code);

    assert_eq!(analysis.hoisted_vars.len(), 1);
    let func = &analysis.hoisted_vars[0];
    let func_expected = HoistedVarInfo {
        identifier: "func".to_string(),
        hoisted_line: 2,
        expr_index: 31,
    };
    assert_eq!(func, &func_expected);
}

#[test]
fn hoisted_func_life_time_line_neg() {
    let code = r#"
statement!
var var func<-2> = arg, arg2 => statement!
statement2!
"#;

    let analysis = Analysis::analyze(code);

    assert_eq!(analysis.hoisted_vars.len(), 1);
    let func = &analysis.hoisted_vars[0];
    let func_expected = HoistedVarInfo {
        identifier: "func".to_string(),
        hoisted_line: 1,
        expr_index: 31,
    };
    assert_eq!(func, &func_expected);
}

#[test]
fn hoisted_func_life_time_line_pos() {
    let code = r#"
statement!
var var func<2> = arg, arg2 => statement!
statement2!
"#;

    let analysis = Analysis::analyze(code);

    assert_eq!(analysis.hoisted_vars.len(), 1);
    let func = &analysis.hoisted_vars[0];
    let func_expected = HoistedVarInfo {
        identifier: "func".to_string(),
        hoisted_line: 3,
        expr_index: 30,
    };
    assert_eq!(func, &func_expected);
}

#[test]
fn hoisted_func_life_time_seconds() {
    let code = r#"
statement!
var var func<50s> = arg, arg2 => statement!
statement2!
"#;

    let analysis = Analysis::analyze(code);

    assert_eq!(analysis.hoisted_vars.len(), 1);
    let func = &analysis.hoisted_vars[0];
    let func_expected = HoistedVarInfo {
        identifier: "func".to_string(),
        hoisted_line: 3,
        expr_index: 32,
    };
    assert_eq!(func, &func_expected);
}

#[test]
fn hoisted_func_life_time_infinity() {
    let code = r#"
statement!
var var func<Infinity> = arg, arg2 => statement!
statement2!
"#;

    let analysis = Analysis::analyze(code);

    assert_eq!(analysis.hoisted_vars.len(), 1);
    let func = &analysis.hoisted_vars[0];
    let func_expected = HoistedVarInfo {
        identifier: "func".to_string(),
        hoisted_line: 3,
        expr_index: 37,
    };
    assert_eq!(func, &func_expected);
}

#[test]
fn const_const() {
    let code = r#"
print foo!
const const value<-1> = 5!
    "#;

    let analysis = Analysis::analyze(code);

    assert_eq!(analysis.hoisted_vars.len(), 1);
    let var = &analysis.hoisted_vars[0];
    let var_expected = HoistedVarInfo {
        identifier: "value".to_string(),
        hoisted_line: 2,
        expr_index: 36,
    };
    assert_eq!(var, &var_expected);
}

#[test]
fn analysis_aborts_on_a_leading_bang() {
    assert!(Analysis::try_analyze("(!)").is_none());
    assert!(Analysis::try_analyze("a ! b").is_some());
}

#[test]
fn hoisted_line_stops_at_zero() {
    let analysis = Analysis::analyze("var var x<-9> = 1!");
    assert_eq!(analysis.hoisted_vars[0].hoisted_line, 0);
    assert_eq!(analysis.hoisted_vars[0].expr_index, 16);
}
