use carrick::file_based_router::is_http_method;
use carrick::ordered::{TextMap, TextSet};
use carrick::paths::{
    components_of, equal_paths, file_name, find_file, has_name, is_under, make_relative, order_paths, parent, resolve,
};
use carrick::text::{
    contains, parse_number, print_number, replace_text, rsplit_once, sort_distinct, split_char, split_once, split_text,
    trim, trim_start_text,
};
use carrick::url_normalizer::read_env_var_base;

#[test]
fn methods_are_recognised_in_any_case() {
    assert!(is_http_method(" get "));
    assert!(is_http_method("DELETE"));
    assert!(!is_http_method("QUERY"));
    assert!(!is_http_method("stra\u{df}e"));
}

#[test]
fn white_space_of_any_script_is_trimmed() {
    assert_eq!(trim("\u{3000} a b \u{a0}\n"), "a b");
    assert_eq!(trim("\u{200b}a"), "\u{200b}a");
}

#[test]
fn texts_are_split_and_put_together() {
    assert_eq!(split_char("a/b//c", '/'), vec!["a", "b", "", "c"]);
    assert_eq!(split_text("a, b, c", ", "), vec!["a", "b", "c"]);
    assert_eq!(split_once("a=b=c", "="), Some(("a".to_string(), "b=c".to_string())));
    assert_eq!(split_once("abc", "="), None);
    assert_eq!(rsplit_once("a:b:c", ':'), Some(("a:b".to_string(), "c".to_string())));
    assert_eq!(rsplit_once("abc", ':'), None);
    assert_eq!(replace_text("a--b--c", "--", "+"), "a+b+c");
    assert_eq!(trim_start_text("././a", "./"), "a");
    assert!(contains("abc", "bc"));
    assert!(!contains("abc", "cb"));
}

#[test]
fn numbers_are_printed_and_read_back() {
    for n in [0, 7, 10, 909, u64::MAX] {
        assert_eq!(parse_number(&print_number(n)), Some(n));
    }
    assert_eq!(parse_number("+12"), Some(12));
    assert_eq!(parse_number(""), None);
    assert_eq!(parse_number("12a"), None);
    assert_eq!(parse_number("18446744073709551616"), None);
}

#[test]
fn texts_are_sorted_without_duplicates() {
    let list = vec!["b".to_string(), "a".to_string(), "B".to_string(), "a".to_string(), "\u{e9}".to_string()];
    assert_eq!(sort_distinct(&list), vec!["B", "a", "b", "\u{e9}"]);
}

#[test]
fn a_map_lists_its_keys_in_order() {
    let mut map: TextMap<u8> = TextMap::new();
    map.insert("b".to_string(), 1);
    map.insert("a".to_string(), 2);
    map.insert("b".to_string(), 3);
    assert_eq!(map.len(), 2);
    assert_eq!(map.entry(0), (&"a".to_string(), &2));
    assert_eq!(map.entry(1), (&"b".to_string(), &3));
    assert_eq!(map.get("c"), None);
    let mut set = TextSet::new();
    assert!(set.insert("x".to_string()));
    assert!(!set.insert("x".to_string()));
    assert!(set.contains("x"));
    assert_eq!(set.len(), 1);
}

#[test]
fn a_path_is_what_its_components_are() {
    assert_eq!(components_of("/a//b/./c/"), vec!["/", "a", "b", "c"]);
    assert_eq!(components_of("./a"), vec![".", "a"]);
    assert!(equal_paths("/a/b", "/a//b/"));
    assert!(!equal_paths("a/b", "/a/b"));
    assert!(is_under("/a/b/c", "/a/b"));
    assert!(!is_under("/a/bc", "/a/b"));
    assert!(has_name("/a/deno.json", "deno.json"));
    assert_eq!(parent("/a/b"), Some("/a".to_string()));
    assert_eq!(parent("/"), None);
    assert_eq!(parent(""), None);
    assert_eq!(parent("/a//b/./c/."), Some("/a//b".to_string()));
    assert_eq!(parent("//a"), Some("/".to_string()));
    assert_eq!(parent("a"), Some("".to_string()));
    assert_eq!(parent("./a"), Some(".".to_string()));
    assert_eq!(parent("./"), Some("".to_string()));
    assert_eq!(parent("a/../b"), Some("a/..".to_string()));
    assert_eq!(file_name("a/b.ts/."), Some("b.ts".to_string()));
    assert_eq!(file_name("a/.."), None);
    assert_eq!(file_name("/"), None);
    assert_eq!(resolve("/a", "b/c"), "/a/b/c");
    assert_eq!(resolve("/a", "/b"), "/b");
}

#[test]
fn a_path_reads_from_a_directory_above_it() {
    assert_eq!(make_relative("/repo/src/a.ts", "/repo"), "src/a.ts");
    assert_eq!(make_relative("/repo//src//a.ts/", "/repo/"), "src//a.ts");
    assert_eq!(make_relative("./src/a.ts", "."), "src/a.ts");
    assert_eq!(make_relative("/repository/a.ts", "/repo"), "/repository/a.ts");
    assert_eq!(make_relative("src/a.ts", "/repo"), "src/a.ts");
    assert_eq!(make_relative("/repo", "/repo"), "");
    assert_eq!(make_relative("./src//a.ts/.", ""), "./src//a.ts");
}

#[test]
fn files_are_ordered_by_their_components() {
    let list = vec!["/a-b/x".to_string(), "/a/y".to_string(), "/a/x".to_string(), "/a//x".to_string()];
    assert_eq!(order_paths(&list), vec!["/a/x", "/a/y", "/a-b/x"]);
    let files = vec!["a/x".to_string(), "a/y".to_string()];
    assert_eq!(find_file(&files, "a//y"), Some(1));
    assert_eq!(find_file(&files, "a/z"), None);
}

#[test]
fn a_base_is_a_variable_only_at_the_start() {
    assert_eq!(read_env_var_base("${process.env.API}/x"), Some("API".to_string()));
    assert_eq!(read_env_var_base("ENV_VAR:API:/x"), Some("API".to_string()));
    assert_eq!(read_env_var_base("ENV_VAR:API"), Some("API".to_string()));
    assert_eq!(read_env_var_base("/x/${process.env.API}"), None);
    assert_eq!(read_env_var_base("${process.env.API"), None);
}
