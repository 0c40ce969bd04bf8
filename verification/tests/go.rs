use mabo::go::{
    assign, assign_with, call, ensure_impl, func, retval, write_indent, GoCall, Op, Opts, Output,
};

#[test]
fn func_header_with_receiver_and_single_return() {
    let mut w = String::new();
    func(&mut w)
        .receiver(&mut w, "v", "*Sample")
        .named(&mut w, "Size")
        .no_params(&mut w)
        .return_types(&mut w, &["int"])
        .body(&mut w, |indent, w| {
            retval(w, indent, &["0"]);
        });
    assert_eq!(w, "func (v *Sample) Size() int {\n\treturn 0\n}");
}

#[test]
fn func_header_with_params_and_multiple_returns() {
    let mut w = String::new();
    func(&mut w)
        .named(&mut w, "Decode")
        .params(&mut w, &["r []byte", "n int"])
        .return_types(&mut w, &["[]byte", "error"]);
    assert_eq!(w, "func Decode(r []byte, n int) ([]byte, error)");
}

#[test]
fn func_without_returns_writes_a_single_space() {
    let mut w = String::new();
    func(&mut w).params(&mut w, &[]).return_types(&mut w, &[]);
    assert_eq!(w, "func() ");
}

#[test]
fn call_with_parameters() {
    let mut w = String::new();
    let c = call(&mut w, 2, "buf.EncodeU32");
    assert!(!c.multiline && !c.params_open && c.params_count == 0);
    let c = c.generics(&mut w, "T").param(&mut w, "w").param(&mut w, "x");
    assert_eq!(c.params_count, 2);
    assert!(c.params_open);
    let c = c.multiline();
    assert!(c.multiline);
    c.end(&mut w);
    assert_eq!(w, "\t\tbuf.EncodeU32[T](w, x)\n");
}

#[test]
fn call_with_built_parameter() {
    let mut w = String::new();
    call(&mut w, 0, "f")
        .param(&mut w, "a")
        .param_with(&mut w, |w| w.push_str("func() {}"))
        .end(&mut w);
    assert_eq!(w, "f(a, func() {})\n");
}

#[test]
fn call_end_without_parameters_still_closes() {
    let mut w = String::new();
    let c: GoCall = call(&mut w, 1, "done");
    c.end(&mut w);
    assert_eq!(w, "\tdone)\n");
}

#[test]
fn ensure_impl_line() {
    let mut w = String::new();
    ensure_impl(&mut w, "buf.Encode", "Sample");
    assert_eq!(w, "var _ buf.Encode = (*Sample)(nil)\n\n");
}

#[test]
fn assign_operators() {
    let mut w = String::new();
    assign(&mut w, 1, "size", Op::Init, "0");
    assign(&mut w, 1, "size", Op::AddAssign, "4");
    assign(&mut w, 0, "x", Op::Assign, "y");
    assert_eq!(w, "\tsize := 0\n\tsize += 4\nx = y\n");
    assert_eq!(Op::Init.text(), ":=");
    assert_eq!(Op::Assign.text(), "=");
    assert_eq!(Op::AddAssign.text(), "+=");
}

#[test]
fn assign_with_builder() {
    let mut w = String::new();
    assign_with(&mut w, 2, "err", Op::Assign, |indent, w| {
        assert_eq!(indent, 2);
        w.push_str("nil\n");
    });
    assert_eq!(w, "\t\terr = nil\n");
}

#[test]
fn return_values_and_indent() {
    let mut w = String::new();
    retval(&mut w, 1, &["r", "nil"]);
    write_indent(&mut w, 3);
    retval(&mut w, 0, &[]);
    assert_eq!(w, "\treturn r, nil\n\t\t\treturn \n");
}

#[test]
fn default_options_and_output_tree() {
    assert_eq!(Opts::default().package, "");
    let out = Output {
        name: "root",
        content: String::from("package root\n"),
        modules: vec![Output { name: "sub", content: String::new(), modules: vec![] }],
    };
    assert_eq!(out.modules[0].name, "sub");
    assert!(format!("{out:?}").contains("sub"));
}
