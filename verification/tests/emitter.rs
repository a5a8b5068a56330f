use paw_lang::codegen::emitter::Emitter;

fn collect(f: impl FnOnce(&mut Emitter)) -> String {
    let mut e = Emitter::new();
    f(&mut e);
    e.finish()
}

#[test]
fn writeln_no_indent() {
    let out = collect(|e| e.writeln("local x = 1"));
    assert_eq!(out, "local x = 1\n");
}

#[test]
fn writeln_one_indent() {
    let out = collect(|e| {
        e.indent();
        e.writeln("local x = 1");
    });
    assert_eq!(out, "\tlocal x = 1\n");
}

#[test]
fn writeln_two_indent() {
    let out = collect(|e| {
        e.indent();
        e.indent();
        e.writeln("local x = 1");
    });
    assert_eq!(out, "\t\tlocal x = 1\n");
}

#[test]
fn dedent_no_underflow() {
    let out = collect(|e| {
        e.dedent();
        e.dedent();
        e.writeln("x");
    });
    assert_eq!(out, "x\n");
}

#[test]
fn indent_dedent_balance() {
    let out = collect(|e| {
        e.writeln("if true then");
        e.indent();
        e.writeln("local x = 1");
        e.dedent();
        e.writeln("end");
    });
    assert_eq!(out, "if true then\n\tlocal x = 1\nend\n");
}

#[test]
fn continues_line() {
    let out = collect(|e| {
        e.emit_indent();
        e.write("local x");
        e.write(" = ");
        e.write("1");
        e.newline();
    });
    assert_eq!(out, "local x = 1\n");
}

#[test]
fn newline_no_indent() {
    let out = collect(|e| {
        e.indent();
        e.writeln("local x = 1");
        e.newline();
        e.writeln("local y = 2");
    });
    assert_eq!(out, "\tlocal x = 1\n\n\tlocal y = 2\n");
}

#[test]
fn write_spaced_pads_both_sides() {
    let out = collect(|e| {
        e.write("a");
        e.write_spaced("=");
        e.write("b");
    });
    assert_eq!(out, "a = b");
}

#[test]
fn indent_then_dedent_returns_to_level() {
    let out = collect(|e| {
        e.indent();
        e.indent();
        e.dedent();
        e.writeln("x");
        e.dedent();
        e.writeln("y");
    });
    assert_eq!(out, "\tx\ny\n");
}

#[test]
fn emit_indent_writes_tabs_only() {
    let out = collect(|e| {
        e.indent();
        e.indent();
        e.indent();
        e.emit_indent();
    });
    assert_eq!(out, "\t\t\t");
}
