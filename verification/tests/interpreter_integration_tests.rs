use ogre::modes::interpreter::Interpreter;

#[test]
fn test_cell_multiplication() {
    let mut interp = Interpreter::new("++++[>+++<-]").unwrap();
    interp.run().unwrap();
    assert_eq!(interp.tape()[0], 0);
    assert_eq!(interp.tape()[1], 12);
}

#[test]
fn test_multiple_outputs() {
    let mut interp =
        Interpreter::new("+++++++++++++++++++++++++++++++++++++++++++++++++++++++++++++++++.+.").unwrap();
    interp.run().unwrap();
    assert_eq!(interp.output_as_string(), "AB");
}

#[test]
fn test_data_ptr_bounds_left() {
    let mut interp = Interpreter::new("<").unwrap();
    assert!(interp.run().is_err());
}

#[test]
fn test_is_done_after_run() {
    let mut interp = Interpreter::new("+++").unwrap();
    interp.run().unwrap();
    assert!(interp.is_done());
}

#[test]
fn test_step_by_step() {
    let mut interp = Interpreter::new("+++").unwrap();
    assert_eq!(interp.tape()[0], 0);
    interp.step().unwrap();
    assert_eq!(interp.tape()[0], 1);
    interp.step().unwrap();
    assert_eq!(interp.tape()[0], 2);
    interp.step().unwrap();
    assert_eq!(interp.tape()[0], 3);
    assert!(interp.is_done());
}
