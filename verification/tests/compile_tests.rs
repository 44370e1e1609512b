use ogre::modes::compile::{generate_c, generate_c_from_program, generate_c_with_tape_size};
use ogre::modes::compile_llvm::{OptLevel, generate_llvm_ir};
use ogre::modes::compile_wasm::generate_wat;
use ogre::modes::ir::{Op, Program};

#[test]
fn test_generate_c_increment() {
    let c = generate_c("+");
    assert!(c.contains("(*ptr)++;"));
}

#[test]
fn test_generate_c_decrement() {
    let c = generate_c("-");
    assert!(c.contains("(*ptr)--;"));
}

#[test]
fn test_generate_c_move_right() {
    let c = generate_c(">");
    assert!(c.contains("ptr++;"));
}

#[test]
fn test_generate_c_move_left() {
    let c = generate_c("<");
    assert!(c.contains("ptr--;"));
}

#[test]
fn test_generate_c_output() {
    let c = generate_c(".");
    assert!(c.contains("putchar(*ptr);"));
}

#[test]
fn test_generate_c_input() {
    let c = generate_c(",");
    assert!(c.contains("*ptr = bf_getchar();"));
}

#[test]
fn test_generate_c_loop() {
    let c = generate_c("[+]");
    assert!(c.contains("while (*ptr) {") || c.contains("(*ptr)++;"));
}

#[test]
fn test_generate_c_structure() {
    let c = generate_c("+");
    assert!(c.contains("#include <stdio.h>"));
    assert!(c.contains("#include <string.h>"));
    assert!(c.contains("int main(int argc, char *argv[])"));
    assert!(c.contains("unsigned char array[30000]"));
    assert!(c.contains("memset(array, 0, sizeof(array))"));
    assert!(c.contains("return 0;"));
    assert!(c.contains("bf_getchar"));
    assert!(c.contains("arg_buf"));
}

#[test]
fn test_generate_c_comments_ignored() {
    let c_with = generate_c("+this is comment+");
    let c_without = generate_c("++");
    assert!(c_with.contains("*ptr += 2;"));
    assert!(c_without.contains("*ptr += 2;"));
}

#[test]
fn test_generate_c_nested_loop_indentation() {
    let c = generate_c("[[+]]");
    let lines: Vec<&str> = c.lines().collect();
    let inner_plus = lines.iter().find(|l| l.contains("(*ptr)++;")).unwrap();
    assert!(inner_plus.starts_with("            "));
}

#[test]
fn test_generate_c_collapsed_ops() {
    let c = generate_c("+++");
    assert!(c.contains("*ptr += 3;"));
}

#[test]
fn test_generate_c_collapsed_moves() {
    let c = generate_c(">>>");
    assert!(c.contains("ptr += 3;"));
}

#[test]
fn test_generate_c_clear_idiom() {
    let c = generate_c("[-]");
    assert!(c.contains("*ptr = 0;"));
}

#[test]
fn test_generate_c_custom_tape_size() {
    let c = generate_c_with_tape_size("+", 60_000);
    assert!(c.contains("unsigned char array[60000]"));
}

#[test]
fn test_generate_c_argv_support() {
    let c = generate_c("+");
    assert!(c.contains("int main(int argc, char *argv[])"));
    assert!(c.contains("arg_buf"));
    assert!(c.contains("bf_getchar"));
    assert!(c.contains("if (argc > 1)"));
    assert!(c.contains("free(arg_buf)"));
}

#[test]
fn test_generate_c_move_add() {
    let c = generate_c("[->+<]");
    assert!(c.contains("*(ptr + 1) += *ptr; *ptr = 0;"));
}

#[test]
fn c_unparsable_source_gives_empty_main() {
    let c = generate_c("[");
    assert!(c.ends_with("    unsigned char *ptr = array;\n    if (arg_buf) free(arg_buf);\n    return 0;\n}\n"));
}

#[test]
fn c_multiply_and_scan() {
    let p = Program { ops: vec![Op::MultiplyMove(vec![(1, 2), (-2, 1)]), Op::ScanLeft, Op::Assign(7)] };
    let c = generate_c_from_program(&p, 10);
    assert!(c.contains("    *(ptr + 1) += *ptr * 2;\n    *(ptr + -2) += *ptr;\n    *ptr = 0;\n"));
    assert!(c.contains("    while (*ptr) ptr--;\n"));
    assert!(c.contains("    *ptr = 7;\n"));
}

#[test]
fn test_generate_llvm_ir_structure() {
    let prog = Program::from_source("+").unwrap();
    let ir = generate_llvm_ir(&prog, 30000);
    assert!(ir.contains("ModuleID"));
    assert!(ir.contains("@tape = global [30000 x i8] zeroinitializer"));
    assert!(ir.contains("declare i32 @putchar(i32)"));
    assert!(ir.contains("declare i32 @getchar()"));
    assert!(ir.contains("define i32 @main()"));
    assert!(ir.contains("ret i32 0"));
}

#[test]
fn test_generate_llvm_ir_add() {
    let prog = Program::from_source("+").unwrap();
    let ir = generate_llvm_ir(&prog, 30000);
    assert!(ir.contains("add i8"));
}

#[test]
fn test_generate_llvm_ir_sub() {
    let prog = Program::from_source("-").unwrap();
    let ir = generate_llvm_ir(&prog, 30000);
    assert!(ir.contains("sub i8"));
}

#[test]
fn test_generate_llvm_ir_right() {
    let prog = Program::from_source(">").unwrap();
    let ir = generate_llvm_ir(&prog, 30000);
    assert!(ir.contains("getelementptr i8"));
    assert!(ir.contains("i64 1"));
}

#[test]
fn test_generate_llvm_ir_left() {
    let prog = Program::from_source("<").unwrap();
    let ir = generate_llvm_ir(&prog, 30000);
    assert!(ir.contains("getelementptr i8"));
    assert!(ir.contains("i64 -1"));
}

#[test]
fn test_generate_llvm_ir_output() {
    let prog = Program::from_source(".").unwrap();
    let ir = generate_llvm_ir(&prog, 30000);
    assert!(ir.contains("call i32 @putchar"));
    assert!(ir.contains("zext i8"));
}

#[test]
fn test_generate_llvm_ir_input() {
    let prog = Program::from_source(",").unwrap();
    let ir = generate_llvm_ir(&prog, 30000);
    assert!(ir.contains("call i32 @getchar()"));
    assert!(ir.contains("trunc i32"));
}

#[test]
fn test_generate_llvm_ir_loop() {
    let prog = Program::from_source("[+]").unwrap();
    let ir = generate_llvm_ir(&prog, 30000);
    assert!(ir.contains("loop_cond_0"));
    assert!(ir.contains("loop_body_0"));
    assert!(ir.contains("loop_end_0"));
    assert!(ir.contains("icmp ne i8"));
}

#[test]
fn test_generate_llvm_ir_clear() {
    let mut prog = Program::from_source("[-]").unwrap();
    prog.optimize();
    let ir = generate_llvm_ir(&prog, 30000);
    assert!(ir.contains("store i8 0"));
}

#[test]
fn test_generate_llvm_ir_set() {
    let mut prog = Program::from_source("[-]+++++").unwrap();
    prog.optimize();
    let ir = generate_llvm_ir(&prog, 30000);
    assert!(ir.contains("store i8 5"));
}

#[test]
fn test_generate_llvm_ir_collapsed() {
    let prog = Program::from_source("+++").unwrap();
    let ir = generate_llvm_ir(&prog, 30000);
    assert!(ir.contains("add i8") && ir.contains(", 3"));
}

#[test]
fn test_generate_llvm_ir_tape_size() {
    let prog = Program::from_source("+").unwrap();
    let ir = generate_llvm_ir(&prog, 65536);
    assert!(ir.contains("[65536 x i8]"));
}

#[test]
fn test_generate_llvm_ir_scan_right() {
    let mut prog = Program::from_source("[>]").unwrap();
    prog.optimize();
    let ir = generate_llvm_ir(&prog, 30000);
    assert!(ir.contains("scan_cond_"));
    assert!(ir.contains("scan_body_"));
    assert!(ir.contains("scan_end_"));
}

#[test]
fn test_generate_llvm_ir_move_add() {
    let mut prog = Program::from_source("[->+<]").unwrap();
    prog.optimize();
    let ir = generate_llvm_ir(&prog, 30000);
    assert!(ir.contains("getelementptr i8"));
    assert!(ir.contains("store i8 0"));
}

#[test]
fn test_generate_llvm_ir_nested_loops() {
    let prog = Program::from_source("[[+]]").unwrap();
    let ir = generate_llvm_ir(&prog, 30000);
    assert!(ir.contains("loop_cond_0"));
    assert!(ir.contains("loop_cond_1"));
}

#[test]
fn test_opt_level_flags() {
    assert_eq!(OptLevel::O0.as_flag(), "-O0");
    assert_eq!(OptLevel::O1.as_flag(), "-O1");
    assert_eq!(OptLevel::O2.as_flag(), "-O2");
    assert_eq!(OptLevel::O3.as_flag(), "-O3");
}

#[test]
fn test_opt_level_from_str() {
    assert!(OptLevel::parse_level("0").is_some());
    assert!(OptLevel::parse_level("3").is_some());
    assert!(OptLevel::parse_level("4").is_none());
    assert!(OptLevel::parse_level("x").is_none());
}

#[test]
fn llvm_add_exact_text() {
    let prog = Program::from_source("+").unwrap();
    let ir = generate_llvm_ir(&prog, 8);
    assert!(ir.contains("  %t0 = load ptr, ptr %ptr\n  %t1 = load i8, ptr %t0\n  %t2 = add i8 %t1, 1\n  %t3 = load ptr, ptr %ptr\n  store i8 %t2, ptr %t3\n  ret i32 0\n}\n"));
}

#[test]
fn test_generate_wat_empty() {
    let prog = Program::from_source("").unwrap();
    let wat = generate_wat(&prog, 30000);
    assert!(wat.contains("(module"));
    assert!(wat.contains("(func $main"));
    assert!(wat.contains("_start"));
}

#[test]
fn test_generate_wat_increment() {
    let prog = Program::from_source("+").unwrap();
    let wat = generate_wat(&prog, 30000);
    assert!(wat.contains("i32.add"));
    assert!(wat.contains("i32.const 1"));
    assert!(wat.contains("i32.store8"));
}

#[test]
fn test_generate_wat_decrement() {
    let prog = Program::from_source("-").unwrap();
    let wat = generate_wat(&prog, 30000);
    assert!(wat.contains("i32.sub"));
    assert!(wat.contains("i32.store8"));
}

#[test]
fn test_generate_wat_move_right() {
    let prog = Program::from_source(">").unwrap();
    let wat = generate_wat(&prog, 30000);
    assert!(wat.contains("global.set $dp"));
    assert!(wat.contains("i32.add"));
}

#[test]
fn test_generate_wat_move_left() {
    let prog = Program::from_source("<").unwrap();
    let wat = generate_wat(&prog, 30000);
    assert!(wat.contains("global.set $dp"));
    assert!(wat.contains("i32.sub"));
}

#[test]
fn test_generate_wat_output() {
    let prog = Program::from_source(".").unwrap();
    let wat = generate_wat(&prog, 30000);
    assert!(wat.contains("fd_write"));
}

#[test]
fn test_generate_wat_input() {
    let prog = Program::from_source(",").unwrap();
    let wat = generate_wat(&prog, 30000);
    assert!(wat.contains("fd_read"));
}

#[test]
fn test_generate_wat_loop() {
    let prog = Program::from_source("[+]").unwrap();
    let wat = generate_wat(&prog, 30000);
    assert!(wat.contains("block $B"));
    assert!(wat.contains("loop $L"));
    assert!(wat.contains("br_if $B"));
    assert!(wat.contains("br_if $L"));
}

#[test]
fn test_generate_wat_clear() {
    let mut prog = Program::from_source("[-]").unwrap();
    prog.optimize();
    let wat = generate_wat(&prog, 30000);
    assert!(wat.contains("i32.store8"));
    assert!(wat.contains("i32.const 0"));
}

#[test]
fn test_generate_wat_collapsed_ops() {
    let prog = Program::from_source("+++").unwrap();
    let wat = generate_wat(&prog, 30000);
    assert!(wat.contains("i32.const 3"));
}

#[test]
fn test_generate_wat_memory_pages() {
    let prog = Program::from_source("+").unwrap();
    let wat = generate_wat(&prog, 30000);
    assert!(wat.contains("(memory (export \"memory\") 1)"));
}

#[test]
fn test_generate_wat_large_tape() {
    let prog = Program::from_source("+").unwrap();
    let wat = generate_wat(&prog, 100000);
    assert!(wat.contains("(memory (export \"memory\") 2)"));
}

#[test]
fn test_generate_wat_wasi_imports() {
    let prog = Program::from_source("+").unwrap();
    let wat = generate_wat(&prog, 30000);
    assert!(wat.contains("wasi_snapshot_preview1"));
    assert!(wat.contains("fd_write"));
    assert!(wat.contains("fd_read"));
}

#[test]
fn test_generate_wat_nested_loops() {
    let prog = Program::from_source("[[+]]").unwrap();
    let wat = generate_wat(&prog, 30000);
    let block_count = wat.matches("block $B").count();
    let loop_count = wat.matches("loop $L").count();
    assert_eq!(block_count, 2);
    assert_eq!(loop_count, 2);
}

#[test]
fn wat_output_uses_scratch_after_tape() {
    let prog = Program::from_source(".").unwrap();
    let wat = generate_wat(&prog, 100);
    assert!(wat.contains("    (i32.store (i32.const 100) (global.get $dp))\n    (i32.store (i32.const 104) (i32.const 1))\n    (drop (call $fd_write (i32.const 1) (i32.const 100) (i32.const 1) (i32.const 108)))\n"));
}
