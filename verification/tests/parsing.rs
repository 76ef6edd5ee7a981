use argdef::arg::Arg;
use argdef::opts::ArgOpts;
use argdef::parse_args::{Args, ParseFrom};

fn tokens(items: &[&str]) -> Vec<String> {
    items.iter().map(|s| s.to_string()).collect()
}

fn value(text: &str) -> Option<Option<String>> {
    Some(Some(text.to_string()))
}

#[test]
fn formatted_flag_is_parsed_back() {
    let def = Arg::flag("verbose");
    let mut out = def.format(None);
    let token = out.next().unwrap();
    assert_eq!(out.next(), None);
    let mut args = vec![token];
    assert_eq!([&def].parse_from(&mut args), [Some(None)]);
    assert!(args.is_empty());
}

#[test]
fn formatted_short_flag_is_parsed_back() {
    let def = Arg::flag("v");
    let mut args = vec![def.format(None).next().unwrap()];
    assert_eq!(args, tokens(&["-v"]));
    assert_eq!([&def].parse_from(&mut args), [Some(None)]);
    assert!(args.is_empty());
}

#[test]
fn formatted_option_with_equals_is_parsed_back() {
    let def = Arg::option("name").with_opts(ArgOpts::value_sep_equals());
    let mut args = vec![def.format(Some("value")).next().unwrap()];
    assert_eq!(args, tokens(&["--name=value"]));
    assert_eq!([&def].parse_from(&mut args), [value("value")]);
    assert!(args.is_empty());
}

#[test]
fn value_in_next_token() {
    let def = Arg::option("name").with_opts(ArgOpts::value_sep_next_arg());
    let mut args = tokens(&["--name", "value", "extra"]);
    assert_eq!([&def].parse_from(&mut args), [value("value")]);
    assert_eq!(args, tokens(&["extra"]));
}

#[test]
fn value_without_separator() {
    let def = Arg::option("n").with_opts(ArgOpts::value_sep_no_space());
    let mut args = tokens(&["-nVALUE"]);
    assert_eq!([&def].parse_from(&mut args), [value("VALUE")]);
    assert!(args.is_empty());
}

#[test]
fn alias_is_the_same_flag() {
    let opts = ArgOpts::single_hyphen().union(ArgOpts::double_hyphen());
    let def = Arg::flag("verbose").with_alias(&["v"]).with_opts(opts);
    let mut long = tokens(&["--verbose"]);
    assert_eq!([&def].parse_from(&mut long), [Some(None)]);
    assert!(long.is_empty());
    let mut short = tokens(&["-v"]);
    assert_eq!([&def].parse_from(&mut short), [Some(None)]);
    assert!(short.is_empty());
}

#[test]
fn other_tokens_stay_in_order() {
    let def = Arg::option("name").with_opts(ArgOpts::value_sep_equals());
    let mut args = tokens(&["--other", "--name=value", "positional"]);
    assert_eq!([&def].parse_from(&mut args), [value("value")]);
    assert_eq!(args, tokens(&["--other", "positional"]));
}

#[test]
fn absent_definition_leaves_tokens_unchanged() {
    let def = Arg::option("name").with_opts(ArgOpts::value_sep_equals());
    let flag = Arg::flag("verbose");
    let before = tokens(&["--other", "name=value", "-name=value", "--nam=value", "verbose"]);
    let mut args = before.clone();
    assert_eq!([&def, &flag].parse_from(&mut args), [None, None]);
    assert_eq!(args, before);
}

#[test]
fn second_parse_of_the_leftover_finds_nothing() {
    let name = Arg::option("name").with_opts(ArgOpts::value_sep_next_arg());
    let verbose = Arg::flag("verbose");
    let mut args = tokens(&["a", "--verbose", "b", "--name", "value", "c"]);
    assert_eq!([&name, &verbose].parse_from(&mut args), [value("value"), Some(None)]);
    let leftover = tokens(&["a", "b", "c"]);
    assert_eq!(args, leftover);
    assert_eq!([&name, &verbose].parse_from(&mut args), [None, None]);
    assert_eq!(args, leftover);
}

#[test]
fn empty_batch_and_empty_tokens() {
    let mut args = tokens(&["--verbose"]);
    let found: [Option<Option<String>>; 0] = [].parse_from(&mut args);
    assert_eq!(found.len(), 0);
    assert_eq!(args, tokens(&["--verbose"]));
    let verbose = Arg::flag("verbose");
    let quiet = Arg::flag("quiet");
    let mut none = Vec::new();
    assert_eq!([&verbose, &quiet].parse_from(&mut none), [None, None]);
    assert!(none.is_empty());
}

#[test]
fn several_definitions_in_any_order_of_occurrence() {
    let name = Arg::option("name").with_opts(ArgOpts::value_sep_equals());
    let verbose = Arg::flag("verbose");
    let level = Arg::option("l").with_opts(ArgOpts::value_sep_no_space());
    let mut args = tokens(&["-l3", "file", "--verbose", "--name=x"]);
    assert_eq!(
        [&name, &verbose, &level].parse_from(&mut args),
        [value("x"), Some(None), value("3")]
    );
    assert_eq!(args, tokens(&["file"]));
}

#[test]
fn found_value_is_not_overwritten_by_a_later_miss() {
    let verbose = Arg::flag("verbose");
    let mut args = tokens(&["--verbose", "rest", "more"]);
    assert_eq!([&verbose].parse_from(&mut args), [Some(None)]);
    assert_eq!(args, tokens(&["rest", "more"]));
}

#[test]
fn name_with_a_leading_hyphen_is_not_parsed_back() {
    let flag = Arg::flag("-x");
    let mut args = vec![flag.format(None).next().unwrap()];
    assert_eq!(args, tokens(&["---x"]));
    assert_eq!([&flag].parse_from(&mut args), [None]);
    assert_eq!(args, tokens(&["---x"]));
    let option = Arg::option("-x").with_opts(ArgOpts::value_sep_equals());
    let mut args = vec![option.format(Some("value")).next().unwrap()];
    assert_eq!(args, tokens(&["---x=value"]));
    assert_eq!([&option].parse_from(&mut args), [None]);
    assert_eq!(args, tokens(&["---x=value"]));
}

#[test]
fn formatted_option_in_two_tokens_is_parsed_back() {
    let def = Arg::option("name").with_opts(ArgOpts::value_sep_next_arg());
    let mut out = def.format(Some("value"));
    let mut args = vec![out.next().unwrap(), out.next().unwrap()];
    assert_eq!(out.next(), None);
    assert_eq!([&def].parse_from(&mut args), [value("value")]);
    assert!(args.is_empty());
}

#[test]
fn formatted_option_without_separator_is_parsed_back() {
    let def = Arg::option("n").with_opts(ArgOpts::value_sep_no_space());
    let mut args = vec![def.format(Some("VALUE")).next().unwrap()];
    assert_eq!([&def].parse_from(&mut args), [value("VALUE")]);
    assert!(args.is_empty());
}

#[test]
fn empty_name_matches_by_hyphens_alone() {
    let flag = Arg::flag("");
    assert_eq!(flag.format(None).to_string(), "--");
    let mut args = tokens(&["-", "--", "x"]);
    assert_eq!([&flag].parse_from(&mut args), [Some(None)]);
    assert_eq!(args, tokens(&["-", "x"]));
}

#[test]
fn three_definitions_and_no_token() {
    let a = Arg::flag("a");
    let b = Arg::option("b").with_opts(ArgOpts::value_sep_equals());
    let c = Arg::flag("c");
    let mut args: Vec<String> = Vec::new();
    assert_eq!([&a, &b, &c].parse_from(&mut args), [None, None, None]);
}

#[test]
fn second_occurrence_of_a_found_definition_stays() {
    let verbose = Arg::flag("verbose");
    let mut args = tokens(&["--verbose", "--verbose"]);
    assert_eq!([&verbose].parse_from(&mut args), [Some(None)]);
    assert_eq!(args, tokens(&["--verbose"]));
    assert_eq!([&verbose].parse_from(&mut args), [Some(None)]);
    assert!(args.is_empty());
    let name = Arg::option("name").with_opts(ArgOpts::value_sep_equals());
    let mut twice = tokens(&["--name=a", "--name=b"]);
    assert_eq!([&name].parse_from(&mut twice), [value("a")]);
    assert_eq!(twice, tokens(&["--name=b"]));
}

#[test]
fn later_definition_is_tried_on_the_token_that_moved_up() {
    let a = Arg::flag("a");
    let b = Arg::flag("b");
    let mut args = tokens(&["-a", "-b"]);
    assert_eq!([&a, &b].parse_from(&mut args), [Some(None), Some(None)]);
    assert!(args.is_empty());
    let mut reversed = tokens(&["-b", "-a"]);
    assert_eq!([&a, &b].parse_from(&mut reversed), [Some(None), Some(None)]);
    assert!(reversed.is_empty());
}

#[test]
fn value_in_next_token_at_the_end_is_present_without_value() {
    let def = Arg::option("name").with_opts(ArgOpts::value_sep_next_arg());
    let mut args = tokens(&["first", "--name"]);
    assert_eq!([&def].parse_from(&mut args), [Some(None)]);
    assert_eq!(args, tokens(&["first"]));
}

#[test]
fn value_in_next_token_may_look_like_an_argument() {
    let name = Arg::option("name").with_opts(ArgOpts::value_sep_next_arg());
    let verbose = Arg::flag("verbose");
    let mut args = tokens(&["--name", "--verbose"]);
    assert_eq!([&name, &verbose].parse_from(&mut args), [value("--verbose"), None]);
    assert!(args.is_empty());
}

#[test]
fn option_without_separator_facet_never_matches() {
    let def = Arg::option("name");
    let before = tokens(&["--name", "value", "--name=value", "--namevalue"]);
    let mut args = before.clone();
    assert_eq!([&def].parse_from(&mut args), [None]);
    assert_eq!(args, before);
}

#[test]
fn wrong_hyphen_count_is_no_match() {
    let long = Arg::flag("verbose");
    let short = Arg::flag("v");
    let before = tokens(&["-verbose", "---verbose", "verbose", "--v", "v"]);
    let mut args = before.clone();
    assert_eq!([&long, &short].parse_from(&mut args), [None, None]);
    assert_eq!(args, before);
    let single = Arg::flag("verbose").with_opts(ArgOpts::single_hyphen());
    let mut args = tokens(&["--verbose", "-verbose"]);
    assert_eq!([&single].parse_from(&mut args), [Some(None)]);
    assert_eq!(args, tokens(&["--verbose"]));
}

#[test]
fn flag_needs_the_whole_body() {
    let def = Arg::flag("verbose");
    let before = tokens(&["--verbosely", "--verbos", "--verbose=1"]);
    let mut args = before.clone();
    assert_eq!([&def].parse_from(&mut args), [None]);
    assert_eq!(args, before);
}

#[test]
fn equals_is_tried_before_the_other_separators() {
    let opts = ArgOpts::value_sep_equals()
        .union(ArgOpts::value_sep_no_space())
        .union(ArgOpts::value_sep_next_arg());
    let def = Arg::option("name").with_opts(opts);
    let mut args = tokens(&["--name=value"]);
    assert_eq!([&def].parse_from(&mut args), [value("value")]);
    let mut args = tokens(&["--name", "value"]);
    assert_eq!([&def].parse_from(&mut args), [value("value")]);
    assert!(args.is_empty());
    let mut args = tokens(&["--namevalue"]);
    assert_eq!([&def].parse_from(&mut args), [value("value")]);
}

#[test]
fn without_equals_facet_the_sign_belongs_to_the_value() {
    let def = Arg::option("n").with_opts(ArgOpts::value_sep_no_space());
    let mut args = tokens(&["-n=3"]);
    assert_eq!([&def].parse_from(&mut args), [value("=3")]);
    let mut args = tokens(&["-n"]);
    assert_eq!([&def].parse_from(&mut args), [value("")]);
    assert!(args.is_empty());
}

#[test]
fn empty_value_after_equals() {
    let def = Arg::option("name").with_opts(ArgOpts::value_sep_equals());
    let mut args = tokens(&["--name="]);
    assert_eq!([&def].parse_from(&mut args), [value("")]);
    assert!(args.is_empty());
    let mut bare = tokens(&["--name"]);
    assert_eq!([&def].parse_from(&mut bare), [None]);
    assert_eq!(bare, tokens(&["--name"]));
}

#[test]
fn first_name_that_is_a_prefix_decides() {
    let opts = ArgOpts::value_sep_equals();
    let def = Arg::option("name").with_alias(&["n", "nick"]).with_opts(opts.union(ArgOpts::double_hyphen()));
    let mut args = tokens(&["--n=1"]);
    assert_eq!([&def].parse_from(&mut args), [value("1")]);
    let before = tokens(&["--nick=2"]);
    let mut args = before.clone();
    assert_eq!([&def].parse_from(&mut args), [None]);
    assert_eq!(args, before);
    let no_space = Arg::option("n").with_alias(&["name"]).with_opts(
        ArgOpts::value_sep_no_space().union(ArgOpts::double_hyphen()),
    );
    let mut args = tokens(&["--name"]);
    assert_eq!([&no_space].parse_from(&mut args), [value("ame")]);
}

#[test]
fn alias_of_an_option() {
    let opts = ArgOpts::single_hyphen().union(ArgOpts::double_hyphen()).union(ArgOpts::value_sep_equals());
    let def = Arg::option("output").with_alias(&["o"]).with_opts(opts);
    let mut args = tokens(&["-o=file"]);
    assert_eq!([&def].parse_from(&mut args), [value("file")]);
    assert!(args.is_empty());
}

#[test]
fn non_ascii_names_and_values() {
    let def = Arg::option("größe").with_opts(ArgOpts::value_sep_equals());
    let mut args = tokens(&["--größe=süß", "é"]);
    assert_eq!([&def].parse_from(&mut args), [value("süß")]);
    assert_eq!(args, tokens(&["é"]));
    let short = Arg::option("é").with_opts(ArgOpts::value_sep_no_space());
    let mut args = tokens(&["-éà"]);
    assert_eq!([&short].parse_from(&mut args), [value("à")]);
}

#[test]
fn tokens_of_hyphens_only() {
    let def = Arg::flag("verbose");
    let before = tokens(&["-", "--", "---", ""]);
    let mut args = before.clone();
    assert_eq!([&def].parse_from(&mut args), [None]);
    assert_eq!(args, before);
}

#[test]
fn parse_value_takes_one_token() {
    let def = Arg::flag("verbose");
    let mut args = tokens(&["a", "--verbose", "b"]);
    assert_eq!(def.parse_value(0, &mut args), None);
    assert_eq!(args, tokens(&["a", "--verbose", "b"]));
    assert_eq!(def.parse_value(1, &mut args), Some(None));
    assert_eq!(args, tokens(&["a", "b"]));
}

#[test]
fn parse_value_takes_two_tokens() {
    let def = Arg::option("name").with_opts(ArgOpts::value_sep_next_arg());
    let mut args = tokens(&["a", "--name", "value", "b"]);
    assert_eq!(def.parse_value(1, &mut args), value("value"));
    assert_eq!(args, tokens(&["a", "b"]));
}

#[test]
fn parse_value_slices_the_value_out() {
    let def = Arg::option("name").with_opts(ArgOpts::value_sep_equals());
    let mut args = tokens(&["--name=a=b"]);
    assert_eq!(def.parse_value(0, &mut args), value("a=b"));
    assert!(args.is_empty());
}

#[test]
fn is_name_eq_checks_name_and_aliases() {
    let def = Arg::flag("verbose").with_alias(&["v", "loud"]);
    assert!(def.is_name_eq("verbose"));
    assert!(def.is_name_eq("v"));
    assert!(def.is_name_eq("loud"));
    assert!(!def.is_name_eq("verb"));
    assert!(!def.is_name_eq("verbose "));
    assert!(!def.is_name_eq(""));
}

#[test]
fn accepts_hyphen_count_infers_from_the_name() {
    assert!(Arg::flag("v").accepts_hyphen_count(1));
    assert!(!Arg::flag("v").accepts_hyphen_count(2));
    assert!(Arg::flag("verbose").accepts_hyphen_count(2));
    assert!(!Arg::flag("verbose").accepts_hyphen_count(1));
    assert!(!Arg::flag("verbose").accepts_hyphen_count(0));
    let both = ArgOpts::single_hyphen().union(ArgOpts::double_hyphen());
    let def = Arg::flag("verbose").with_opts(both);
    assert!(def.accepts_hyphen_count(1) && def.accepts_hyphen_count(2));
    assert!(!def.accepts_hyphen_count(3));
}

#[test]
fn parse_value_sep_reports_the_separator() {
    let all = ArgOpts::value_sep_equals()
        .union(ArgOpts::value_sep_no_space())
        .union(ArgOpts::value_sep_next_arg());
    let mut sep = Some(7);
    assert!(all.parse_value_sep("=value", &mut sep));
    assert_eq!(sep, Some(1));
    assert!(all.parse_value_sep("", &mut sep));
    assert_eq!(sep, None);
    assert!(all.parse_value_sep("value", &mut sep));
    assert_eq!(sep, Some(0));
    let mut sep = Some(7);
    assert!(!ArgOpts::value_sep_equals().parse_value_sep("value", &mut sep));
    assert_eq!(sep, None);
    let mut sep = Some(7);
    assert!(!ArgOpts::value_sep_next_arg().parse_value_sep("=value", &mut sep));
    assert_eq!(sep, None);
    assert!(ArgOpts::value_sep_no_space().parse_value_sep("", &mut sep));
    assert_eq!(sep, Some(0));
    assert!(!ArgOpts::empty().parse_value_sep("", &mut sep));
}

#[test]
fn args_parse_scans_its_tokens() {
    let name = Arg::option("name").with_opts(ArgOpts::value_sep_next_arg());
    let verbose = Arg::flag("verbose");
    let mut args = Args::new(tokens(&["--name", "value", "extra", "--verbose"]));
    assert_eq!(args.parse([&name, &verbose]), [value("value"), Some(None)]);
    assert_eq!(args.remaining(), &tokens(&["extra"]));
    assert_eq!(args.parse([&name, &verbose]), [None, None]);
    assert_eq!(args.remaining(), &tokens(&["extra"]));
}
