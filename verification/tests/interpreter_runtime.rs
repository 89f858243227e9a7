use std::path::PathBuf;
use tbx::error::TbxError;
use tbx::interpreter::{count_top_level_arity, resolve_source_pos, Interpreter};
use tbx::lexer::{Lexer, SpannedToken, Token};

fn tokenize_args(s: &str) -> Vec<SpannedToken> {
    let mut lex = Lexer::new(s);
    let mut tokens = Vec::new();
    loop {
        let st = lex.next_token();
        match &st.token {
            Token::Newline | Token::Eof => break,
            _ => tokens.push(st),
        }
    }
    tokens
}

/// An interpreter that can USE the given files (path, text).
fn with_files(files: &[(&str, &str)]) -> Interpreter {
    let mut interp = Interpreter::new();
    for (path, text) in files {
        interp.add_source_file(path.to_string(), text.to_string());
    }
    interp
}

#[test]
fn test_exec_rem_is_skipped() {
    let mut interp = Interpreter::new();
    // REM line should not produce any error or output.
    interp.exec_line("REM this is a comment", 1).unwrap();
    let out = interp.take_output();
    assert!(out.is_empty());
}

#[test]
fn test_count_top_level_arity_empty() {
    assert_eq!(count_top_level_arity(&[]), Ok(0));
}

#[test]
fn test_count_top_level_arity_single() {
    let tokens = tokenize_args("42");
    assert_eq!(count_top_level_arity(&tokens), Ok(1));
}

#[test]
fn test_count_top_level_arity_multiple() {
    let tokens = tokenize_args("1 , 2 , 3");
    assert_eq!(count_top_level_arity(&tokens), Ok(3));
}

#[test]
fn test_count_top_level_arity_nested_parens() {
    // Commas inside parentheses must not be counted.
    let tokens = tokenize_args("f(1,2)");
    assert_eq!(count_top_level_arity(&tokens), Ok(1));
}

#[test]
fn test_count_top_level_arity_unmatched_rparen() {
    let tokens = tokenize_args(")");
    assert!(matches!(
        count_top_level_arity(&tokens),
        Err(TbxError::InvalidExpression { .. })
    ));
}

#[test]
fn test_count_top_level_arity_nested_brackets() {
    // Commas inside brackets must not be counted as top-level separators.
    // Regression test for issue #776: @A[1, 2] inside a call argument must
    // not be misinterpreted as two separate arguments.
    let tokens = tokenize_args("@A[1 , 2]");
    assert_eq!(count_top_level_arity(&tokens), Ok(1));
}

#[test]
fn test_count_top_level_arity_mixed_brackets_and_parens() {
    // f(@A[1, 2], @B[3, 4]) must count as 2 top-level arguments.
    let tokens = tokenize_args("f(@A[1 , 2]) , g(@B[3 , 4])");
    assert_eq!(count_top_level_arity(&tokens), Ok(2));
}

#[test]
fn test_immediate_word_var_isolated_from_outer_stack() {
    // After an IMMEDIATE word with VAR locals runs, the data stack must be
    // back to its original length (local slots cleaned up).
    let mut interp = Interpreter::new();
    let src = "\
DEF ICLEAN
VAR A
VAR B
SET &A, 1
SET &B, 2
END
IMMEDIATE ICLEAN
ICLEAN";
    interp.exec_source(src).expect("should succeed");
    assert_eq!(
        interp.vm().data_stack.len(),
        0,
        "data stack must be clean after IMMEDIATE word with locals"
    );
}

#[test]
fn test_immediate_word_var_early_void_return() {
    // A void RETURN (EXIT) inside an IMMEDIATE word with VAR locals must
    // exit early and leave the stack clean.
    let mut interp = Interpreter::new();
    let src = "\
DEF IEARLY
VAR X
SET &X, 99
RETURN
PUTDEC X
END
IMMEDIATE IEARLY
IEARLY";
    interp
        .exec_source(src)
        .expect("early void RETURN in IMMEDIATE word must succeed");
    // PUTDEC after RETURN must not execute.
    assert_eq!(interp.take_output(), "", "PUTDEC after RETURN must not run");
    assert_eq!(
        interp.vm().data_stack.len(),
        0,
        "data stack must be clean after early RETURN"
    );
}

#[test]
fn test_immediate_word_var_return_expr_errors() {
    // RETURN expr (value-returning) inside an IMMEDIATE word must return
    // TbxError::InvalidReturn because vm.run() uses a TopLevel sentinel
    // instead of a proper CALL frame.  VM state must be rolled back cleanly.
    let mut interp = Interpreter::new();
    let setup = "\
DEF IRETVAL
VAR X
SET &X, 5
RETURN X
END
IMMEDIATE IRETVAL";
    interp
        .exec_source(setup)
        .expect("definition phase must succeed");

    let before_len = interp.vm().data_stack.len();
    let before_bp = interp.vm().bp;

    let result = interp.exec_source("IRETVAL");
    assert!(result.is_err(), "RETURN expr in IMMEDIATE word must error");
    assert_eq!(
        interp.vm().data_stack.len(),
        before_len,
        "data_stack must be restored after InvalidReturn"
    );
    assert_eq!(
        interp.vm().bp, before_bp,
        "bp must be restored after InvalidReturn"
    );
    assert!(
        interp.vm().token_stream.is_none(),
        "token_stream must be cleared after InvalidReturn"
    );
}

#[test]
fn test_user_defined_immediate_word_with_arity_returns_error() {
    // A user word with formal parameters (arity > 0) cannot be IMMEDIATE-dispatched
    // directly because vm.run() does not set up the CALL frame.
    let mut interp = Interpreter::new();
    let src = "\
DEF IPARAM(X)
PUTDEC X
END
IMMEDIATE IPARAM
IPARAM 42";
    let result = interp.exec_source(src);
    assert!(
        result.is_err(),
        "expected error when IMMEDIATE word has formal parameters"
    );
    let err = result.unwrap_err();
    assert!(
        err.call_stack.is_empty(),
        "pre-execution IMMEDIATE dispatch error should not synthesize a runtime frame"
    );
}

#[test]
fn test_immediate_word_runtime_error_captures_word_frame() {
    let mut interp = Interpreter::new();
    let src = "DEF BAD\n  PUTDEC 1 / 0\nEND\nIMMEDIATE BAD\nBAD";
    let result = interp.exec_source(src);
    let err = result.expect_err("expected runtime error from IMMEDIATE word");
    assert_eq!(err.call_stack.len(), 2);
    assert_eq!(err.call_stack[0].word_name, "BAD");
    assert_eq!(err.call_stack[0].actual_arity, 0);
    assert_eq!(err.call_stack[1].word_name, "<top-level>");
}

#[test]
fn test_immediate_primitive_runtime_error_captures_primitive_frame() {
    // END is an IMMEDIATE primitive; calling it outside of DEF returns a
    // runtime error from end_prim.  The primitive's name must appear in the
    // call stack so the error message points at the offending word.
    // (IMMEDIATE primitives are dispatched without entering vm.run(), so
    // the captured stack contains only the synthetic primitive frame.)
    let mut interp = Interpreter::new();
    let result = interp.exec_source("END");
    let err = result.expect_err("expected runtime error from IMMEDIATE primitive");
    assert_eq!(err.call_stack.len(), 1);
    assert_eq!(err.call_stack[0].word_name, "END");
    assert_eq!(err.call_stack[0].actual_arity, 0);
}

#[test]
fn test_compile_program_runtime_error_line_number() {
    // A runtime error must carry the correct 1-based source line number,
    // not the placeholder 0 that was used before issue #275 was fixed.
    let mut interp = Interpreter::new();
    // The division-by-zero is on line 2.
    let src = "PUTDEC 1\nPUTDEC 1 / 0\nPUTDEC 3";
    let result = interp.compile_program(src);
    let err = result.expect_err("expected runtime error from division by zero");
    assert_ne!(
        err.line, 0,
        "runtime error line must not be 0 (was: {})",
        err.line
    );
    assert_eq!(
        err.line, 2,
        "runtime error must point to line 2, got {}",
        err.line
    );
    // Column and source line are also expected to be accurate.
    assert_eq!(
        err.col, 1,
        "column should point to the start of the PUTDEC keyword (col 1), got {}",
        err.col
    );
    assert!(
        err.source_excerpt.contains("1 / 0"),
        "source_excerpt should contain the failing expression, got: {:?}",
        err.source_excerpt
    );
    assert_eq!(err.call_stack.len(), 1);
    assert_eq!(err.call_stack[0].word_name, "<top-level>");
    assert_eq!(err.call_stack[0].actual_arity, 0);
}

#[test]
fn test_compile_program_runtime_error_in_user_word_line_number() {
    // A runtime error inside a user-defined word called from line 6 must
    // report line 6 (the call site in the main routine).
    let mut interp = Interpreter::new();
    let src = "DEF BAD_WORD\n  PUTDEC 1 / 0\nEND\nPUTDEC 1\nPUTDEC 2\nBAD_WORD";
    let result = interp.compile_program(src);
    let err = result.expect_err("expected runtime error from division by zero in user word");
    assert_ne!(
        err.line, 0,
        "runtime error line must not be 0 (was: {})",
        err.line
    );
    assert_eq!(
        err.line, 6,
        "runtime error must point to line 6 (the BAD_WORD call site), got {}",
        err.line
    );
    // Column and source line are also expected to be accurate.
    assert_eq!(
        err.col, 1,
        "column should point to the start of BAD_WORD keyword (col 1), got {}",
        err.col
    );
    assert!(
        err.source_excerpt.contains("BAD_WORD"),
        "source_excerpt should contain the call site identifier, got: {:?}",
        err.source_excerpt
    );
    assert_eq!(err.call_stack.len(), 2);
    assert_eq!(err.call_stack[0].word_name, "BAD_WORD");
    assert_eq!(err.call_stack[0].actual_arity, 0);
    assert_eq!(err.call_stack[1].word_name, "<top-level>");
}

#[test]
fn test_resolve_source_pos_fallback() {
    // error_pc is outside main routine, return stack is empty → fallback (0, 0, "")
    let (line, col, src) = resolve_source_pos(
        999,         // error_pc outside main
        &Vec::new(), // empty return stack
        0,           // main_start
        10,          // main_len
        &Vec::new(), // empty stmt_positions
    );
    assert_eq!(line, 0);
    assert_eq!(col, 0);
    assert!(src.is_empty());
}

#[test]
fn test_compile_program_runtime_error_nested_word_line_number() {
    // DEF INNER → DEF OUTER(calls INNER) → OUTER call at line 7
    // Error in INNER, but err.line should point to OUTER call site (line 7)
    let mut interp = Interpreter::new();
    let src = "DEF INNER\n  PUTDEC 1 / 0\nEND\nDEF OUTER\n  INNER\nEND\nOUTER";
    let result = interp.compile_program(src);
    let err = result.expect_err("expected runtime error");
    assert_ne!(err.line, 0, "line must not be 0");
    assert_eq!(
        err.line, 7,
        "error must point to OUTER call site at line 7, got {}",
        err.line
    );
    assert_eq!(err.call_stack.len(), 3);
    assert_eq!(err.call_stack[0].word_name, "INNER");
    assert_eq!(err.call_stack[1].word_name, "OUTER");
    assert_eq!(err.call_stack[2].word_name, "<top-level>");
}

#[test]
fn test_use_loads_and_executes_file() {
    let mut interp = with_files(&[("/lib/lib.tbx", "DEF HELLO\nPUTSTR \"hello\"\nEND\n")]);
    interp.exec_source("USE \"/lib/lib.tbx\"\nHELLO").unwrap();
    assert!(interp.take_output().contains("hello"));
}

#[test]
fn test_use_compile_program_mode() {
    // USE must also work when called from compile_program (the full-program entry point).
    let mut interp = with_files(&[("/lib/lib.tbx", "DEF GREET\nPUTSTR \"greet\"\nEND\n")]);
    interp.compile_program("USE \"/lib/lib.tbx\"\nGREET").unwrap();
    assert!(interp.take_output().contains("greet"));
}

#[test]
fn test_use_self_reference_returns_circular_error() {
    // A file that USEs itself must be detected as a circular USE.
    let mut interp = with_files(&[("/lib/self_use.tbx", "USE \"/lib/self_use.tbx\"\n")]);
    let result = interp.exec_source("USE \"/lib/self_use.tbx\"");
    assert!(result.is_err());
    assert!(
        matches!(result.unwrap_err().kind, TbxError::CircularUse { .. }),
        "expected TbxError::CircularUse for self-referencing USE"
    );
}

#[test]
fn test_use_mutual_circular_returns_circular_error() {
    // A -> B -> A must be detected as circular USE.
    let mut interp = with_files(&[
        ("/lib/a.tbx", "USE \"/lib/b.tbx\"\n"),
        ("/lib/b.tbx", "USE \"/lib/a.tbx\"\n"),
    ]);
    let result = interp.exec_source("USE \"/lib/a.tbx\"");
    assert!(result.is_err());
    assert!(
        matches!(result.unwrap_err().kind, TbxError::CircularUse { .. }),
        "expected TbxError::CircularUse for mutual circular USE (A->B->A)"
    );
}

#[test]
fn test_use_linear_chain_succeeds() {
    // A non-circular chain A -> B -> C must succeed.
    let mut interp = with_files(&[
        ("/lib/c.tbx", "DEF HELLO\nPUTSTR \"hello\"\nEND\n"),
        ("/lib/b.tbx", "USE \"/lib/c.tbx\"\n"),
        ("/lib/a.tbx", "USE \"/lib/b.tbx\"\n"),
    ]);
    interp.exec_source("USE \"/lib/a.tbx\"").unwrap();
    interp.exec_source("HELLO").unwrap();
    assert!(
        interp.take_output().contains("hello"),
        "linear chain A->B->C must succeed and define HELLO"
    );
}

#[test]
fn test_use_nesting_depth_exceeded() {
    // With max_use_depth = 2 the chain A(0) -> B(1) -> C(2) reaches the limit
    // when C tries to USE D; D need not exist.
    let mut interp = with_files(&[
        ("/lib/c.tbx", "USE \"/lib/d.tbx\"\n"),
        ("/lib/b.tbx", "USE \"/lib/c.tbx\"\n"),
        ("/lib/a.tbx", "USE \"/lib/b.tbx\"\n"),
    ]);
    interp.set_max_use_depth(2);
    let result = interp.exec_source("USE \"/lib/a.tbx\"");
    assert!(result.is_err());
    assert!(
        matches!(
            result.unwrap_err().kind,
            TbxError::UseNestingDepthExceeded { .. }
        ),
        "expected TbxError::UseNestingDepthExceeded for non-circular deep USE"
    );
}

#[test]
fn test_use_halt_in_loaded_file_does_not_stop_caller() {
    // HALT inside a USEd file ends that file but the caller continues.
    let mut interp = with_files(&[(
        "/lib/lib_halt.tbx",
        "DEF GREET\nPUTSTR \"hi\"\nEND\nHALT\nDEF NEVER\nPUTSTR \"never\"\nEND\n",
    )]);
    interp.exec_source("USE \"/lib/lib_halt.tbx\"").unwrap();
    interp.exec_source("GREET").unwrap();
    assert!(
        interp.take_output().contains("hi"),
        "GREET defined before HALT should be callable after USE"
    );
    let result = interp.exec_source("NEVER");
    assert!(
        result.is_err(),
        "NEVER defined after HALT should not be callable"
    );
    assert!(
        matches!(result.unwrap_err().kind, TbxError::UndefinedSymbol { .. }),
        "expected UndefinedSymbol for word defined after HALT"
    );
}

#[test]
fn test_set_base_dir_resolves_relative_use_path() {
    // A relative USE path is resolved from base_dir.
    let mut interp = with_files(&[("/proj/lib.tbx", "DEF HELLO\nPUTSTR \"hello\"\nEND\n")]);
    interp.set_base_dir(PathBuf::from("/proj")).unwrap();
    interp.exec_source("USE \"lib.tbx\"\nHELLO").unwrap();
    assert!(
        interp.take_output().contains("hello"),
        "relative USE should succeed when base_dir is set"
    );
}

#[test]
fn test_set_base_dir_file_not_found_error_contains_resolved_path() {
    // The FileNotFound error reports the base_dir-joined path.
    let mut interp = Interpreter::new();
    interp.set_base_dir(PathBuf::from("/proj")).unwrap();
    let result = interp.exec_source("USE \"no_such_file.tbx\"");
    assert!(result.is_err());
    let err = result.unwrap_err();
    assert!(
        matches!(err.kind, TbxError::FileNotFound { .. }),
        "expected TbxError::FileNotFound"
    );
    if let TbxError::FileNotFound { path, .. } = &err.kind {
        assert!(
            path.contains("/proj"),
            "FileNotFound path should contain base_dir; got: {path}"
        );
    }
}

#[test]
fn test_set_base_dir_inherited_by_nested_use() {
    // Nested relative USE paths resolve against the same base_dir.
    let mut interp = with_files(&[
        ("/proj/c.tbx", "DEF NESTED\nPUTSTR \"nested\"\nEND\n"),
        ("/proj/b.tbx", "USE \"c.tbx\"\n"),
        ("/proj/a.tbx", "USE \"b.tbx\"\n"),
    ]);
    interp.set_base_dir(PathBuf::from("/proj")).unwrap();
    interp.exec_source("USE \"a.tbx\"\nNESTED").unwrap();
    assert!(
        interp.take_output().contains("nested"),
        "base_dir should be applied to nested USE chains"
    );
}

#[test]
fn test_set_base_dir_nested_use_from_subdirectory_resolves_relative_to_including_file() {
    // Relative paths in nested USE files resolve against the directory of the
    // including file, not against base_dir.
    let mut interp = with_files(&[
        ("/proj/modules/utils.tbx", "DEF UTIL_WORD\nPUTSTR \"util\"\nEND\n"),
        ("/proj/modules/a.tbx", "USE \"utils.tbx\"\n"),
    ]);
    interp.set_base_dir(PathBuf::from("/proj")).unwrap();
    interp
        .exec_source("USE \"modules/a.tbx\"\nUTIL_WORD")
        .unwrap();
    assert!(
        interp.take_output().contains("util"),
        "USE in subdirectory file should resolve paths relative to the including file's directory"
    );
}

#[test]
fn test_nested_use_sibling_file_in_subdir_no_base_dir() {
    // Without base_dir a USEd file resolves its own USE paths relative to its
    // own directory.
    let mut interp = with_files(&[
        ("/proj/utils/helper.tbx", "DEF HELPER_WORD\nPUTSTR \"helper\"\nEND\n"),
        ("/proj/utils/math.tbx", "USE \"helper.tbx\"\n"),
    ]);
    interp.exec_source("USE \"/proj/utils/math.tbx\"").unwrap();
    interp.exec_source("HELPER_WORD").unwrap();
    assert!(
        interp.take_output().contains("helper"),
        "HELPER_WORD defined via nested sibling USE should be callable"
    );
}
