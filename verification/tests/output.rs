use aster::output::{
    expect_shutdown, expect_success, first_insertion, read_input, zsh_stream, InputError, Outcome,
    ZshFormat,
};
use aster::protocol::{
    Candidate, CandidateKind, CandidateSource, CompletionResponse, Response,
};

fn menu() -> CompletionResponse {
    CompletionResponse {
        replace_start_byte: 2,
        replace_end_byte: 2,
        candidates: vec![Candidate {
            display: "ls a".to_owned(),
            description: "File".to_owned(),
            description_pending: true,
            kind: CandidateKind::File,
            insert_text: " a".to_owned(),
            accept_text: " ".to_owned(),
            source: CandidateSource::Filesystem,
        }],
        enrichment_pending: false,
    }
}

#[test]
fn streams_have_fields_in_a_fixed_order() {
    assert_eq!(
        zsh_stream(&menu(), ZshFormat::Plain),
        b" a\0ls a\0File\0file\0filesystem\0"
    );
    assert_eq!(
        zsh_stream(&menu(), ZshFormat::WithPending),
        b" a\0ls a\0File\0file\0filesystem\0true\0"
    );
    assert_eq!(
        zsh_stream(&menu(), ZshFormat::WithHeader),
        b"false\0 a\0ls a\0File\0file\0filesystem\0true\0"
    );
    assert_eq!(zsh_stream(&CompletionResponse::empty(0), ZshFormat::Plain), b"");
    assert_eq!(zsh_stream(&CompletionResponse::empty(0), ZshFormat::WithHeader), b"false\0");
}

#[test]
fn the_first_candidate_is_inserted() {
    assert_eq!(first_insertion(&menu()).map(|text| text.as_str()), Some(" "));
    assert_eq!(first_insertion(&CompletionResponse::empty(0)), None);
}

#[test]
fn refusals_are_passed_on() {
    let refused = Response::Error { message: "no".to_owned() };
    assert_eq!(expect_success(&Response::Recorded), Outcome::Expected);
    assert_eq!(expect_success(&refused), Outcome::Refused("no".to_owned()));
    assert_eq!(expect_success(&Response::ShuttingDown), Outcome::Unexpected);
    assert_eq!(expect_shutdown(&Response::ShuttingDown), Outcome::Expected);
    assert_eq!(expect_shutdown(&refused), Outcome::Refused("no".to_owned()));
    assert_eq!(expect_shutdown(&Response::Recorded), Outcome::Unexpected);
}

#[test]
fn input_is_text_within_a_limit() {
    assert_eq!(read_input(b"ls".to_vec(), 2), Ok("ls".to_owned()));
    let long = read_input(b"lsx".to_vec(), 2).unwrap_err();
    assert_eq!(long, InputError::TooLong { limit: 2 });
    assert_eq!(long.message(), "stdin input exceeds 2 bytes");
    let problem = String::from_utf8(vec![0x61, 0xff]).unwrap_err().to_string();
    let unreadable = read_input(vec![0x61, 0xff], 2).unwrap_err();
    assert_eq!(unreadable.message(), format!("stdin input is not valid UTF-8: {problem}"));
    assert_eq!(unreadable, InputError::NotUtf8 { problem });
}
