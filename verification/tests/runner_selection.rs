use runx::runner_selection::{hex_prefix, inspection_runner, selected_runner};

fn runners(list: &[(&str, bool)]) -> Vec<(String, bool)> {
    list.iter().map(|(n, d)| (n.to_string(), *d)).collect()
}

#[test]
fn requested_runner_must_be_declared() {
    let rs = runners(&[("inspect", false), ("read", true)]);
    assert_eq!(selected_runner(&rs, Some("inspect")), Ok(0));
    assert_eq!(
        selected_runner(&rs, Some("write")),
        Err("runner write is not declared in the manifest".to_owned())
    );
}

#[test]
fn default_runner_is_used_when_none_is_requested() {
    assert_eq!(selected_runner(&runners(&[("a", false), ("b", true)]), None), Ok(1));
    assert_eq!(selected_runner(&runners(&[("only", false)]), None), Ok(0));
    assert_eq!(
        selected_runner(&runners(&[("a", false), ("b", false)]), None),
        Err("runner manifest has no default runner".to_owned())
    );
    assert_eq!(
        selected_runner(&runners(&[]), None),
        Err("runner manifest has no default runner".to_owned())
    );
    assert_eq!(
        selected_runner(&runners(&[("a", true), ("b", true)]), None),
        Err("runner manifest declares multiple default runners".to_owned())
    );
}

#[test]
fn inspection_describes_the_chosen_runner_if_any() {
    let rs = runners(&[("a", false), ("b", true)]);
    assert_eq!(inspection_runner(Some(&rs), Some("a")), Ok(Some(0)));
    assert_eq!(inspection_runner(Some(&rs), None), Ok(Some(1)));
    assert_eq!(
        inspection_runner(Some(&rs), Some("z")),
        Err("skill has no runner 'z'".to_owned())
    );
    assert_eq!(inspection_runner(Some(&runners(&[("x", false)])), None), Ok(Some(0)));
    assert_eq!(inspection_runner(Some(&runners(&[("x", false), ("y", false)])), None), Ok(None));
    assert_eq!(inspection_runner(None, None), Ok(None));
    assert_eq!(inspection_runner(None, Some("x")), Err("skill has no runner 'x'".to_owned()));
}

#[test]
fn hex_prefix_takes_leading_digits() {
    assert_eq!(hex_prefix(&[0xab, 0x01, 0xff], 4), "ab01");
    assert_eq!(hex_prefix(&[0xab, 0x01, 0xff], 12), "ab01ff");
    assert_eq!(hex_prefix(&[], 3), "");
}
