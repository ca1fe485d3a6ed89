use tinyc::ast::{ASTNode, AST};
use tinyc::libc::{LibC, Stdio};
use tinyc::parse_source;
use tinyc::runtime::{Diagnostic, Env, Function, Interpreter};

fn ast_of(src: &str) -> AST {
    let chars: Vec<char> = src.chars().collect();
    parse_source(&chars).expect("source should parse")
}

#[test]
fn standard_table_holds_stdio_and_printf() {
    let libc = LibC::new();
    assert_eq!(libc.filepaths, vec!["stdio.h".to_string()]);
    assert_eq!(libc.stdio.funcnames, vec!["printf".to_string()]);
    assert_eq!(Stdio::new().funcnames, vec!["printf".to_string()]);
}

#[test]
fn include_stdio_registers_printf() {
    let mut ast = AST::new();
    ast.push(ASTNode::Include("stdio.h".to_string()));
    let mut rt = Interpreter::new(ast);
    let diags = rt.eval();
    assert!(diags.is_empty());
    let fns = &rt.env().functions;
    assert_eq!(fns.len(), 1);
    assert_eq!(fns[0].name, "printf");
    assert_eq!(fns[0].location, "libc/printf");
}

#[test]
fn include_unknown_header_changes_nothing() {
    let mut ast = AST::new();
    ast.push(ASTNode::Include("unknown.h".to_string()));
    let mut rt = Interpreter::new(ast);
    let diags = rt.eval();
    assert!(rt.env().functions.is_empty());
    assert_eq!(diags.len(), 1);
    match &diags[0] {
        Diagnostic::NotFound(p) => assert_eq!(p, "unknown.h"),
        other => panic!("unexpected diagnostic {other:?}"),
    }
}

#[test]
fn parsed_program_reports_other_nodes() {
    let mut rt = Interpreter::new(ast_of("#include <stdio.h> #include <unknown.h>"));
    let diags = rt.eval();
    let fns = &rt.env().functions;
    assert_eq!(fns.len(), 1);
    assert_eq!(fns[0].name, "printf");
    assert_eq!(diags.len(), 2);
    assert!(matches!(&diags[0], Diagnostic::NotFound(p) if p == "unknown.h"));
    assert!(matches!(&diags[1], Diagnostic::Unsupported(ASTNode::EOF)));
}

#[test]
fn repeated_include_registers_twice() {
    let mut rt = Interpreter::new(ast_of("#include <stdio.h> #include \"stdio.h\""));
    rt.eval();
    let fns = &rt.env().functions;
    assert_eq!(fns.len(), 2);
    assert_eq!(fns[1].location, "libc/printf");
}

#[test]
fn function_declarations_are_not_evaluated() {
    let mut rt = Interpreter::new(ast_of("int main(void){return 0;}"));
    let diags = rt.eval();
    assert!(rt.env().functions.is_empty());
    assert_eq!(diags.len(), 2);
    assert!(matches!(&diags[0], Diagnostic::Unsupported(ASTNode::FuncDecl { .. })));
}

#[test]
fn custom_table_exports_its_functions() {
    let libc = LibC {
        filepaths: vec!["io.h".to_string()],
        stdio: Stdio { funcnames: vec!["puts".to_string(), "getc".to_string()] },
    };
    let mut ast = AST::new();
    ast.push(ASTNode::Include("io.h".to_string()));
    let mut rt = Interpreter::with_libc(ast, libc);
    assert!(rt.eval().is_empty());
    let fns = &rt.env().functions;
    assert_eq!(fns.len(), 2);
    assert_eq!(fns[0].name, "puts");
    assert_eq!(fns[1].location, "libc/getc");
}

#[test]
fn eval_drains_the_program() {
    let mut rt = Interpreter::new(ast_of("#include <stdio.h>"));
    rt.eval();
    assert!(rt.eval().is_empty());
    assert_eq!(rt.env().functions.len(), 1);
}

#[test]
fn env_only_grows() {
    let mut env = Env::new();
    assert!(env.functions.is_empty());
    env.push_function(Function { name: "a".to_string(), location: "x/a".to_string() });
    env.push_function(Function { name: "b".to_string(), location: "x/b".to_string() });
    assert_eq!(env.functions.len(), 2);
    assert_eq!(env.functions[1].name, "b");
}
