use ogre::modes::interpreter::Interpreter;
use ogre::modes::pack::pack_expanded;

const HELLO_WORLD: &str = "Hello world program\n++++++++[>++++[>++>+++>+++>+<<<<-]>+>+>->>+[<]<-]>>.>---.+++++++..+++.>>.<-.<.+++.------.--------.>>+.>++.\n";

#[test]
fn test_pack_strips_comments() {
    let source = "+ this is a comment +";
    let bf = pack_expanded(source, false).unwrap();
    assert_eq!(bf, "++");
}

#[test]
fn test_pack_file_real() {
    let packed = pack_expanded(HELLO_WORLD, false).unwrap();
    assert!(packed.chars().all(|c| "+-><.,[]".contains(c)));
    let mut interp = Interpreter::with_input(&packed, "").unwrap();
    interp.run().unwrap();
    assert_eq!(interp.output_as_string(), "Hello World!\n");
}

#[test]
fn pack_test_pack_with_optimize() {
    let packed = pack_expanded(HELLO_WORLD, true).unwrap();
    assert!(packed.chars().all(|c| "+-><.,[]".contains(c)));
    let mut interp = Interpreter::with_input(&packed, "").unwrap();
    interp.run().unwrap();
    assert_eq!(interp.output_as_string(), "Hello World!\n");
}

#[test]
fn test_pack_optimize_produces_shorter_output() {
    let unoptimized = pack_expanded("+-><[-]+++", false).unwrap();
    let optimized = pack_expanded("+-><[-]+++", true).unwrap();
    assert!(
        optimized.len() <= unoptimized.len(),
        "optimized ({}) should be <= unoptimized ({})",
        optimized.len(),
        unoptimized.len()
    );
}

#[test]
fn pack_optimized_text() {
    assert_eq!(pack_expanded("[-]+++", true).unwrap(), "[-]+++");
    assert!(pack_expanded("[", true).is_err());
    assert_eq!(pack_expanded("[", false).unwrap(), "[");
}
