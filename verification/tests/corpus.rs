use lib::corpus::mutate_and_lex;

#[test]
fn mutated_sources_lex_without_panicking() {
    mutate_and_lex("const answer: number = 42;\nconsole.log(answer);");
    mutate_and_lex("/* open");
    mutate_and_lex("\"é\" + 'ü'");
    mutate_and_lex("");
}
