use frame_submit::reflect::buffer_block_has_readonly_keyword;

fn readonly(name: &str, content: &str) -> bool {
    buffer_block_has_readonly_keyword(&name.as_bytes().to_vec(), &content.as_bytes().to_vec())
}

#[test]
fn qualifier_before_the_block_is_found() {
    let source = "layout(std430) readonly buffer Positions { vec4 positions[]; };";
    assert!(readonly("Positions", source));
}

#[test]
fn block_without_the_qualifier_reads_as_writable() {
    let source = "layout(std430) buffer Outputs { vec4 colours[]; };";
    assert!(!readonly("Outputs", source));
}

#[test]
fn qualifiers_of_other_blocks_do_not_leak() {
    let source = "readonly buffer A { int a; };\nbuffer B { int b; };";
    assert!(readonly("A", source));
    assert!(!readonly("B", source));
}

#[test]
fn the_previous_declaration_bounds_the_search() {
    // the readonly belongs to the declaration ended by the semicolon,
    // not to the following block
    let source = "readonly int x;\nbuffer C { int c; };";
    assert!(!readonly("C", source));
}

#[test]
fn a_name_that_never_occurs_is_not_readonly() {
    let source = "readonly buffer A { int a; };";
    assert!(!readonly("Missing", source));
}

#[test]
fn a_brace_terminates_the_block_name() {
    let source = "readonly buffer Data{ int d; };";
    assert!(readonly("Data", source));
}

#[test]
fn the_word_buffer_inside_identifiers_does_not_match() {
    // an occurrence whose following token is not the name keeps the
    // scan going until the real declaration
    let source = "int framebuffer_count;\nreadonly buffer Tally { int t; };";
    assert!(readonly("Tally", source));
}

#[test]
fn empty_source_has_no_blocks() {
    assert!(!readonly("A", ""));
}
