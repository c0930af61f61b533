use sm_action::emit::{
    compose, delimiter, env_target_name, file_command, issue_file_command, mask_value,
    output_target_name, resolve_targets, set_secrets, EmissionError,
};

fn is_uuid_text(text: &str) -> bool {
    text.len() == 36
        && text.char_indices().all(|(i, c)| match i {
            8 | 13 | 18 | 23 => c == '-',
            _ => c.is_ascii_digit() || ('a'..='f').contains(&c),
        })
}

/// Splits a block into name, delimiter and value, and checks its frame.
fn unframe(block: &str) -> (String, String, String) {
    let (head, rest) = block.split_once('\n').unwrap();
    let (name, frame) = head.split_once("<<").unwrap();
    let foot = format!("\n{frame}\n");
    assert!(rest.ends_with(&foot), "{block:?}");
    let value = &rest[..rest.len() - foot.len()];
    (name.to_string(), frame.to_string(), value.to_string())
}

#[test]
fn mask_value_gives_the_command() {
    assert_eq!(mask_value("a%0Ab"), "::add-mask::a%0Ab");
    assert_eq!(mask_value(""), "::add-mask::");
}

#[test]
fn delimiter_is_made_from_the_token() {
    assert_eq!(
        delimiter(0xa1a2a3a4b1b2c1c2d1d2d3d4d5d6d7d8),
        "ghadelimiter_a1a2a3a4-b1b2-c1c2-d1d2-d3d4d5d6d7d8"
    );
    assert_eq!(delimiter(0).chars().count(), 49);
}

#[test]
fn file_command_frames_the_value() {
    assert_eq!(file_command("X", "a\nb", "ghadelimiter_d"), "X<<ghadelimiter_d\na\nb\nghadelimiter_d\n");
    assert_eq!(file_command("", "", ""), "<<\n\n\n");
    assert_eq!(file_command("NAME", "v", "D").chars().count(), 4 + 1 + 2 + 5);
}

#[test]
fn compose_masks_the_encoded_value_and_writes_the_raw_one() {
    let emission = compose("X", "top\nsecret 100%", 1, 2);
    assert_eq!(emission.mask, "::add-mask::top%0Asecret 100%25");
    assert_eq!(
        emission.env_entry,
        "X<<ghadelimiter_00000000-0000-0000-0000-000000000001\ntop\nsecret 100%\nghadelimiter_00000000-0000-0000-0000-000000000001\n"
    );
    assert_eq!(
        emission.output_entry,
        "X<<ghadelimiter_00000000-0000-0000-0000-000000000002\ntop\nsecret 100%\nghadelimiter_00000000-0000-0000-0000-000000000002\n"
    );
}

#[test]
fn issue_file_command_draws_a_delimiter() {
    let block = issue_file_command("X", "a\nb");
    let (name, frame, value) = unframe(&block);
    assert_eq!(name, "X");
    assert_eq!(value, "a\nb");
    let token = frame.strip_prefix("ghadelimiter_").unwrap();
    assert!(is_uuid_text(token), "{token:?}");
    assert_eq!(token.as_bytes()[14], b'4');
    assert!(matches!(token.as_bytes()[19], b'8' | b'9' | b'a' | b'b'));
    assert_eq!(block, file_command("X", "a\nb", &frame));
}

#[test]
fn issue_file_command_draws_afresh_each_time() {
    assert_ne!(issue_file_command("X", "v"), issue_file_command("X", "v"));
}

#[test]
fn set_secrets_frames_the_raw_value_and_masks_the_encoded_one() {
    let emission = set_secrets("X", "first line\nsecond line");
    assert_eq!(emission.mask, "::add-mask::first line%0Asecond line");
    assert!(!emission.mask.contains('\n'));
    let mut frames = Vec::new();
    for block in [&emission.env_entry, &emission.output_entry] {
        let (name, frame, value) = unframe(block);
        assert_eq!(name, "X");
        assert_eq!(value, "first line\nsecond line");
        assert!(is_uuid_text(frame.strip_prefix("ghadelimiter_").unwrap()));
        let lines: Vec<&str> = block.lines().collect();
        assert_eq!(lines, vec![format!("X<<{frame}").as_str(), "first line", "second line", frame.as_str()]);
        frames.push(frame);
    }
    assert_ne!(frames[0], frames[1]);
}

#[test]
fn set_secrets_on_a_value_of_several_lines() {
    let secret_name = "TEST_SECRET";
    let secret_value = "BrowserSettings__EnvironmentUrl=https://example.com\n\n# Browser Settings 2\nBrowserSettings__EnvironmentUrl=https://example2.com";
    let emission = set_secrets(secret_name, secret_value);
    assert_eq!(
        emission.mask,
        "::add-mask::BrowserSettings__EnvironmentUrl=https://example.com%0A%0A# Browser Settings 2%0ABrowserSettings__EnvironmentUrl=https://example2.com"
    );
    for block in [&emission.env_entry, &emission.output_entry] {
        let (name, _, value) = unframe(block);
        assert_eq!(name, secret_name);
        assert_eq!(value, secret_value);
    }
}

#[test]
fn resolve_targets_needs_both_places() {
    let env = || Some("/tmp/env".to_string());
    let out = || Some("/tmp/out".to_string());
    let both = resolve_targets(env(), out()).unwrap();
    assert_eq!(both.env_path, "/tmp/env");
    assert_eq!(both.output_path, "/tmp/out");
    assert_eq!(resolve_targets(None, out()).unwrap_err(), EmissionError::MissingEnvTarget);
    assert_eq!(resolve_targets(env(), None).unwrap_err(), EmissionError::MissingOutputTarget);
    assert_eq!(resolve_targets(None, None).unwrap_err(), EmissionError::MissingEnvTarget);
}

#[test]
fn emission_error_names_the_missing_setting() {
    assert_eq!(env_target_name(), "GITHUB_ENV");
    assert_eq!(output_target_name(), "GITHUB_OUTPUT");
    assert_eq!(EmissionError::MissingEnvTarget.message(), "GITHUB_ENV is not set");
    assert_eq!(EmissionError::MissingOutputTarget.message(), "GITHUB_OUTPUT is not set");
}
