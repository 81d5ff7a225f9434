use frontend::common::diagnostics::Diagnostics;
use frontend::common::func::{Attribs, Linkage};
use frontend::driver::analyze;
use frontend::hoister::display::append_indented;

#[test]
fn a_resolved_program_is_written_with_its_tables() {
    let mut sink = Diagnostics::new();
    let analysis = analyze("func main() { let x = 1; }", 0, &mut sink);
    assert_eq!(sink.len(), 0);
    assert_eq!(
        analysis.program.to_string(),
        "{\n}\n\t@1 => @1 [ -> _] {\n\t\t_ @2 = 1\n\t}\n\t\n"
    );
}

#[test]
fn statements_are_written_one_level_deeper() {
    let mut sink = Diagnostics::new();
    let analysis = analyze("mut i32 a = 1; a = -a * 2; return f<u8>(a);", 0, &mut sink);
    assert_eq!(
        analysis.program.to_string(),
        "{\n\tmut i32 @1 = 1\n\t@1 = ((-@1) * 2)\n\treturn (@0)<u8>(@1)\n}\n"
    );
}

#[test]
fn indenting_puts_a_tab_before_each_line() {
    let mut out = "head:".to_string();
    append_indented(&mut out, "a\nb\n\nc");
    assert_eq!(out, "head:\ta\n\tb\n\t\n\tc\n");
    let mut empty = String::new();
    append_indented(&mut empty, "");
    assert_eq!(empty, "\t\n");
}

#[test]
fn attributes_and_linkage_are_written_with_a_blank_after() {
    assert_eq!(Attribs::default().to_string(), "");
    assert_eq!(Attribs { is_pure: true, is_unsafe: false }.to_string(), "pure ");
    assert_eq!(Attribs { is_pure: false, is_unsafe: true }.to_string(), "unsafe ");
    assert_eq!(Attribs { is_pure: true, is_unsafe: true }.to_string(), "pure unsafe ");
    assert_eq!(Linkage::default(), Linkage::Default);
    assert_eq!(Linkage::Default.to_string(), "");
    assert_eq!(Linkage::External.to_string(), "extern ");
}
