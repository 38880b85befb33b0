use gateway::usage::Usage;

#[test]
fn total_tokens_adds_counts() {
    let u = Usage { input_tokens: Some(10), output_tokens: Some(5) };
    assert_eq!(u.total_tokens(), 15);
}

#[test]
fn total_tokens_treats_absent_as_zero() {
    assert_eq!(Usage { input_tokens: Some(8), output_tokens: None }.total_tokens(), 8);
    assert_eq!(Usage { input_tokens: None, output_tokens: Some(4) }.total_tokens(), 4);
    assert_eq!(Usage::default().total_tokens(), 0);
    assert_eq!(Usage::default(), Usage { input_tokens: None, output_tokens: None });
}
