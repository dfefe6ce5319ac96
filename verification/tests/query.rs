use bundle_search::cache::{CacheFile, CacheManager};
use bundle_search::checkers::Entry;
use bundle_search::configs::Configs;
use bundle_search::json::{collect, quote, JsonError};
use bundle_search::names::NameOverrideTable;
use bundle_search::query::{
    query, render, render_lines, stable_source, QueryProcessor, Source,
};
use bundle_search::response::Response;
use bundle_search::service::{display_name, map_term, serialize_to_string, Service};
use bundle_search::text::{join_slices, join_strings};

const APP_PATH: &str = "/System/Applications/Books.app";

fn names() -> NameOverrideTable {
    let mut names = NameOverrideTable::new();
    names.insert("Accounts".to_string(), "Users & Groups".to_string());
    names.insert("DateAndTime".to_string(), "Date & Time".to_string());
    names.insert("Speech".to_string(), "Siri".to_string());
    names
}

fn configs() -> Configs {
    Configs::from(
        vec!["/Applications".to_string()],
        vec!["/System/Applications".to_string()],
        names(),
        Vec::new(),
    )
}

fn paths(list: &[&str]) -> Vec<String> {
    list.iter().map(|path| path.to_string()).collect()
}

fn titles(services: &[Service]) -> Vec<&str> {
    services.iter().map(|service| service.title.as_str()).collect()
}

#[test]
fn test_walk_dir_single() {
    let configs = configs();
    let processor = QueryProcessor::new(&configs);
    let mut walker = processor.walker(Entry::new(APP_PATH, false));
    assert_eq!(walker.next_directory(), None);
    let found = walker.into_found();
    let services = processor.query("book", &Vec::new(), &found);
    let string = render(&services).expect("Failed to serialize");
    let expected = r#"{"title":"Books","subtitle":"/System/Applications/Books.app","id":"/System/Applications/Books.app"}
"#;
    assert_eq!(string, expected);
}

#[test]
fn test_serialize() {
    let path = "/System/Applications/Book.app";
    let service = Service::new(path, &NameOverrideTable::new());
    let serialized = service.to_json().expect("Unable to serialize");
    let expected = r#"{"title":"Book","subtitle":"/System/Applications/Book.app","id":"/System/Applications/Book.app"}"#;
    assert_eq!(serialized, expected);
}

#[test]
fn test_bunch_serialize() {
    let table = NameOverrideTable::new();
    let services = vec![
        Service::new("/System/Applications/Book.app", &table),
        Service::new("/System/Applications/Safari.app", &table),
    ];
    let items: Vec<String> =
        services.iter().map(|service| service.to_json().expect("Unable to serialize")).collect();
    let serialized = format!("[{}]", join_strings(&items, ","));
    let expected = r#"[{"title":"Book","subtitle":"/System/Applications/Book.app","id":"/System/Applications/Book.app"},{"title":"Safari","subtitle":"/System/Applications/Safari.app","id":"/System/Applications/Safari.app"}]"#;
    assert_eq!(serialized, expected);
}

/// Reads one result from a JSON object with the three fields of a service.
fn service_from(value: &serde_json::Value) -> Option<Service> {
    Some(Service {
        title: value["title"].as_str()?.to_string(),
        subtitle: value["subtitle"].as_str()?.to_string(),
        id: value["id"].as_str()?.to_string(),
    })
}

#[test]
fn test_deserialize() {
    let source = r#"{"title":"Book","subtitle":"/System/Applications/Book.app","id":"/System/Applications/Book.app"}"#;
    let value: serde_json::Value = serde_json::from_str(source).expect("Unable to deserialize");
    let service = service_from(&value).expect("Unable to deserialize");
    let expected = "/System/Applications/Book.app";
    assert_eq!(service.id, expected);
}

#[test]
fn test_bunch_deserialize() {
    let source = r#"[{"title":"Book","subtitle":"/System/Applications/Book.app","id":"/System/Applications/Book.app"}
        ,{"title":"Safari","subtitle":"/System/Applications/Safari.app","id":"/System/Applications/Safari.app"}]"#;
    let value: serde_json::Value = serde_json::from_str(source).expect("Unable to deserialize");
    let services: Vec<Service> = value
        .as_array()
        .expect("Unable to deserialize")
        .iter()
        .map(|item| service_from(item).expect("Unable to deserialize"))
        .collect();
    let services = services.iter().map(|service| service.id.as_str()).collect::<Vec<_>>();
    let expected = vec!["/System/Applications/Book.app", "/System/Applications/Safari.app"];
    assert_eq!(services, expected);
}

#[test]
fn written_services_are_read_back() {
    let table = names();
    for path in ["/A/Books.app", "/P/Accounts.prefPane", "/A/Say \"hi\".app", "/A/Caf\u{e9}.app"] {
        let service = Service::new(path, &table);
        let text = serialize_to_string(&service).unwrap();
        let value: serde_json::Value = serde_json::from_str(&text).unwrap();
        let read = service_from(&value).unwrap();
        assert_eq!(read.title, service.title);
        assert_eq!(read.subtitle, path);
        assert_eq!(read.id, path);
    }
}

#[test]
fn query_as_text() {
    let configs = configs();
    let stable = paths(&["/S/Siri.app", "/S/Books.app"]);
    let volatile = paths(&["/V/Slack.app"]);
    let text = query("S", &configs, &stable, &volatile).unwrap();
    let expected = "{\"title\":\"Siri\",\"subtitle\":\"/S/Siri.app\",\"id\":\"/S/Siri.app\"}\n{\"title\":\"Slack\",\"subtitle\":\"/V/Slack.app\",\"id\":\"/V/Slack.app\"}\n";
    assert_eq!(text, expected);
    assert_eq!(query("zz", &configs, &stable, &volatile).unwrap(), "");
}

#[test]
fn service_json_is_what_serde_json_reads() {
    let service = Service::new("/Apps/Say \"hi\"\\now\n.app", &NameOverrideTable::new());
    let text = service.to_json().unwrap();
    let value: serde_json::Value = serde_json::from_str(&text).unwrap();
    assert_eq!(value["title"].as_str(), Some(service.title.as_str()));
    assert_eq!(value["subtitle"].as_str(), Some("/Apps/Say \"hi\"\\now\n.app"));
    assert_eq!(value["id"].as_str(), Some("/Apps/Say \"hi\"\\now\n.app"));
    assert_eq!(value.as_object().unwrap().len(), 3);
}

#[test]
fn quoting_escapes() {
    assert_eq!(quote("plain").unwrap(), "\"plain\"");
    assert_eq!(quote("").unwrap(), "\"\"");
    assert_eq!(quote("a\"b").unwrap(), "\"a\\\"b\"");
    assert_eq!(quote("a\\b").unwrap(), "\"a\\\\b\"");
    assert_eq!(quote("a\nb\t").unwrap(), "\"a\\nb\\t\"");
    assert_eq!(quote("\u{1}").unwrap(), "\"\\u0001\"");
    assert_eq!(quote("caf\u{e9}").unwrap(), "\"caf\u{e9}\"");
}

#[test]
fn every_string_is_written() {
    let mut text = String::new();
    for code in 0..0x300u32 {
        if let Some(c) = char::from_u32(code) {
            text.push(c);
        }
    }
    text.push_str("\u{d7ff}\u{e000}\u{ffff}\u{10ffff}");
    let quoted = quote(&text).expect("a string is written");
    let read: String = serde_json::from_str(&quoted).expect("a JSON string");
    assert_eq!(read, text);
    let service = Service::new(&text, &NameOverrideTable::new());
    assert!(service.to_json().is_ok());
    assert!(render(&vec![service]).is_ok());
}

#[test]
fn one_failure_fails_the_whole() {
    let all = vec![Ok("a".to_string()), Ok("".to_string()), Ok("b".to_string())];
    assert_eq!(collect(&all), Ok(vec!["a".to_string(), "".to_string(), "b".to_string()]));
    assert_eq!(collect(&Vec::new()), Ok(Vec::new()));
    let broken = vec![Ok("a".to_string()), Err(JsonError {}), Ok("b".to_string())];
    assert_eq!(collect(&broken), Err(JsonError {}));
    assert_eq!(collect(&vec![Err(JsonError {})]), Err(JsonError {}));
}

#[test]
fn assembling_json() {
    assert_eq!(
        Service::assemble_json("\"t\"", "\"s\"", "\"i\""),
        r#"{"title":"t","subtitle":"s","id":"i"}"#
    );
    assert_eq!(
        Response::assemble_json(&vec!["{}".to_string(), "{\"a\":1}".to_string()], "\"me\""),
        r#"{"services":[{},{"a":1}],"provider":"me"}"#
    );
    assert_eq!(Response::assemble_json(&Vec::new(), "\"\""), r#"{"services":[],"provider":""}"#);
}

#[test]
fn response_as_json() {
    let table = NameOverrideTable::new();
    let services = vec![Service::new("/A/Book.app", &table), Service::new("/A/Go2Shell.app", &table)];
    let bytes = Response::new(services, "launcher".to_string()).serialize_to_json();
    let expected = r#"{"services":[{"title":"Book","subtitle":"/A/Book.app","id":"/A/Book.app"},{"title":"Go 2 Shell","subtitle":"/A/Go2Shell.app","id":"/A/Go2Shell.app"}],"provider":"launcher"}"#;
    assert_eq!(String::from_utf8(bytes).unwrap(), expected);
    let empty = Response::new(Vec::new(), "p".to_string()).serialize_to_json();
    assert_eq!(String::from_utf8(empty).unwrap(), r#"{"services":[],"provider":"p"}"#);
}

#[test]
fn title_is_the_stem_in_words() {
    let table = names();
    assert_eq!(Service::new("/A/Books.app", &table).title, "Books");
    assert_eq!(Service::new("/A/Activity Monitor.app", &table).title, "Activity Monitor");
    assert_eq!(Service::new("/A/Go2Shell.app", &table).title, "Go 2 Shell");
    assert_eq!(Service::new("/A/QuickTimePlayer.app", &table).title, "Quick Time Player");
    assert_eq!(Service::new("/A/Users and Groups.app", &table).title, "Users and Groups");
    assert_eq!(Service::new("/A/Some.Thing.app", &table).title, "Some . Thing");
}

#[test]
fn only_preference_panes_are_looked_up() {
    let table = names();
    assert_eq!(Service::new("/P/Accounts.prefPane", &table).title, "Users & Groups");
    assert_eq!(Service::new("/P/Speech.prefPane", &table).title, "Siri");
    // not in the table: the stem in words, stop words kept
    assert_eq!(Service::new("/P/PrintAndScan.prefPane", &table).title, "Print And Scan");
    // in the table, but not a preference pane
    assert_eq!(Service::new("/A/Accounts.app", &table).title, "Accounts");
    assert_eq!(Service::new("/A/DateAndTime.app", &table).title, "Date And Time");
    assert_eq!(Service::new("/P/DateAndTime.prefPane", &table).title, "Date & Time");
}

#[test]
fn subtitle_and_id_are_the_path() {
    let service = Service::new("/P/Accounts.prefPane", &names());
    assert_eq!(service.subtitle, "/P/Accounts.prefPane");
    assert_eq!(service.id, "/P/Accounts.prefPane");
}

#[test]
fn path_without_a_name_has_no_title() {
    let table = names();
    assert_eq!(Service::new("/", &table).title, "");
    assert_eq!(Service::new("", &table).title, "");
    assert_eq!(Service::new("/a/..", &table).title, "");
    assert_eq!(Service::title_for(None, Some("prefPane"), &table), "");
    assert_eq!(Service::title_for(Some("Speech"), Some("prefPane"), &table), "Siri");
    assert_eq!(Service::title_for(Some("Speech"), Some("app"), &table), "Speech");
    assert_eq!(Service::title_for(Some("Speech"), None, &table), "Speech");
    assert_eq!(Service::file_name("/P/Speech.prefPane", &table), "Siri");
}

#[test]
fn terms_and_display_names() {
    let table = names();
    assert_eq!(map_term("Accounts", &table), "Users & Groups");
    assert_eq!(map_term("TimeMachine", &table), "Time Machine");
    assert_eq!(map_term("", &table), "");
    assert_eq!(display_name("IDandUserInformation"), "ID and User Information");
    assert_eq!(display_name("  Activity   Monitor "), "Activity Monitor");
    assert_eq!(display_name(""), "");
}

#[test]
fn joining() {
    assert_eq!(join_slices(&vec![], ", "), "");
    assert_eq!(join_slices(&vec!["a"], ", "), "a");
    assert_eq!(join_slices(&vec!["a", "", "b"], ", "), "a, , b");
    assert_eq!(join_strings(&vec!["x".to_string(), "y".to_string()], ""), "xy");
    assert_eq!(render_lines(&vec![]), "");
    assert_eq!(render_lines(&vec!["a".to_string(), "".to_string(), "b".to_string()]), "a\n\nb\n");
}

#[test]
fn query_is_lowered_once() {
    let configs = configs();
    let processor = QueryProcessor::new(&configs);
    let found = paths(&["/A/Safari.app", "/A/Activity Monitor.app", "/A/Books.app"]);
    assert_eq!(titles(&processor.query("SAF", &Vec::new(), &found)), vec!["Safari"]);
    assert_eq!(titles(&processor.query("Am", &Vec::new(), &found)), vec!["Activity Monitor"]);
    assert_eq!(titles(&processor.query("zz", &Vec::new(), &found)), Vec::<&str>::new());
    assert_eq!(
        titles(&processor.query("Activity M", &Vec::new(), &found)),
        vec!["Activity Monitor"]
    );
    // select takes the query as it is, and a prefix is matched in lower case only
    assert_eq!(titles(&processor.select("Activity M", &found)), Vec::<&str>::new());
    assert_eq!(titles(&processor.select("activity m", &found)), vec!["Activity Monitor"]);
}

#[test]
fn stable_results_come_before_volatile_ones() {
    let configs = configs();
    let processor = QueryProcessor::new(&configs);
    let stable = paths(&["/S/Siri.app", "/S/Books.app", "/S/Safari.app"]);
    let volatile = paths(&["/V/Slack.app", "/V/Xcode.app", "/V/Signal.app"]);
    let services = processor.query("s", &stable, &volatile);
    let ids: Vec<&str> = services.iter().map(|service| service.id.as_str()).collect();
    assert_eq!(ids, vec!["/S/Siri.app", "/S/Safari.app", "/V/Slack.app", "/V/Signal.app"]);
    let all = processor.query("", &stable, &volatile);
    assert_eq!(all.len(), 6);
}

#[test]
fn query_matches_the_title_not_the_path() {
    let configs = configs();
    let processor = QueryProcessor::new(&configs);
    let found = paths(&["/P/Accounts.prefPane", "/P/Speech.prefPane", "/A/Accounts.app"]);
    assert_eq!(titles(&processor.query("users", &Vec::new(), &found)), vec!["Users & Groups"]);
    assert_eq!(titles(&processor.query("ug", &Vec::new(), &found)), vec!["Users & Groups"]);
    assert_eq!(titles(&processor.query("acc", &Vec::new(), &found)), vec!["Accounts"]);
    assert_eq!(titles(&processor.query("speech", &Vec::new(), &found)), Vec::<&str>::new());
    assert!(processor.filter_output_path("/P/Speech.prefPane", "si").is_some());
    assert!(processor.filter_output_path("/P/Speech.prefPane", "sp").is_none());
}

#[test]
fn processor_ignores_what_the_settings_ignore() {
    let configs = Configs::from(
        vec!["/r".to_string()],
        Vec::new(),
        NameOverrideTable::new(),
        vec!["/r/skip".to_string()],
    );
    let processor = QueryProcessor::new(&configs);
    let mut walker = processor.walker(Entry::new("/r", false));
    assert_eq!(walker.next_directory(), Some("/r".to_string()));
    walker.feed(vec![Entry::new("/r/skip", false), Entry::new("/r/A.app", false)]);
    assert_eq!(walker.next_directory(), None);
    assert_eq!(walker.into_found(), vec!["/r/A.app".to_string()]);
}

#[test]
fn rendering_gives_one_object_on_each_line() {
    let table = NameOverrideTable::new();
    let services = vec![Service::new("/A/Book.app", &table), Service::new("/A/Safari.app", &table)];
    let text = render(&services).unwrap();
    let expected = "{\"title\":\"Book\",\"subtitle\":\"/A/Book.app\",\"id\":\"/A/Book.app\"}\n{\"title\":\"Safari\",\"subtitle\":\"/A/Safari.app\",\"id\":\"/A/Safari.app\"}\n";
    assert_eq!(text, expected);
    assert_eq!(render(&Vec::new()).unwrap(), "");
}

#[test]
fn empty_cache_has_the_roots_walked() {
    let roots = paths(&["/System/Applications"]);
    let manager = CacheManager::new(Some("/tmp/bundle.cache".to_string()));
    let empty = CacheFile::new(Vec::new());
    assert!(matches!(stable_source(&roots, &manager, &empty), Source::Walk));
    let mut file = CacheFile::new(Vec::new());
    manager.bunch_save(&mut file, paths(&["/S/Books.app", "/S/Siri.app"]));
    match stable_source(&roots, &manager, &file) {
        Source::Cache(cached) => assert_eq!(cached, paths(&["/S/Books.app", "/S/Siri.app"])),
        _ => panic!("a cache that holds something is used"),
    }
}

#[test]
fn cache_is_used_only_for_roots_that_may_be_cached() {
    let manager = CacheManager::new(Some("/tmp/bundle.cache".to_string()));
    let mut file = CacheFile::new(Vec::new());
    manager.bunch_save(&mut file, paths(&["/S/Books.app"]));
    assert!(matches!(stable_source(&Vec::new(), &manager, &file), Source::Absent));
    // without a cache file there is nothing to take
    let none = CacheManager::new(None);
    let roots = paths(&["/System/Applications"]);
    assert!(matches!(stable_source(&roots, &none, &file), Source::Walk));
}

#[test]
fn damaged_cache_has_the_roots_walked() {
    let roots = paths(&["/System/Applications"]);
    let manager = CacheManager::new(Some("/tmp/bundle.cache".to_string()));
    let damaged = CacheFile::new(vec![0, 0, 0, 0, 0, 0, 0, 9, b'x']);
    assert!(matches!(stable_source(&roots, &manager, &damaged), Source::Walk));
}

#[test]
fn cache_holds_the_whole_walk_whatever_the_query() {
    let configs = configs();
    let processor = QueryProcessor::new(&configs);
    let manager = CacheManager::new(Some("/tmp/bundle.cache".to_string()));
    let mut file = CacheFile::new(Vec::new());
    let walked = paths(&["/S/Siri.app", "/S/Books.app", "/S/Safari.app"]);
    let stable = manager.bunch_save(&mut file, walked.clone());
    assert_eq!(titles(&processor.query("boo", &stable, &Vec::new())), vec!["Books"]);
    // another query is answered from the same cache
    let again: Vec<String> = manager.bunch_read(&file);
    assert_eq!(again, walked);
    assert_eq!(titles(&processor.query("s", &again, &Vec::new())), vec!["Siri", "Safari"]);
}
