use regex::Regex;
use todotxt_task::task::Task;

fn words_by_pattern(pattern: &str, content: &str) -> Vec<String> {
    let re = Regex::new(pattern).unwrap();
    let mut tags: Vec<String> = Vec::new();
    for found in re.captures_iter(content) {
        tags.push(String::from(found.name("tag").unwrap().as_str()));
    }
    tags.sort();
    tags.dedup();
    tags
}

#[test]
fn tags_agree_with_the_patterns() {
    let contents = [
        "",
        "+",
        "+a",
        " +a",
        "+a +b +a",
        "a+b",
        "+ +a",
        "++a",
        "+a\t+b",
        "\t+b",
        "+a\u{a0}+b +c\u{2003}d",
        "@x +y @z +y @x",
        "  +a  +b",
        "+a+b +c",
        "mail me@home.org @work",
        "+é +É +e",
    ];
    for content in contents {
        let mut t = Task::empty();
        t.set_content(String::from(content));
        assert_eq!(*t.get_project_tags(), words_by_pattern(r"((^| )\+(?P<tag>\S+))", content));
        assert_eq!(*t.get_context_tags(), words_by_pattern(r"((^| )@(?P<tag>\S+))", content));
    }
}

#[test]
fn lines_agree_with_the_patterns() {
    let whole = Regex::new(r"^(?P<completion>x )?(\((?P<priority>[A-Z])\) )?(?P<compdate>\d{4}-\d{2}-\d{2} )?(?P<creadate>\d{4}-\d{2}-\d{2} )?(?P<content>.*)$").unwrap();
    let block = Regex::new(r"( ([^:\s]+):([^:\s]+))+$").unwrap();
    let one = Regex::new(r"(?P<key>[^:\s]+):(?P<value>[^:\s]+)").unwrap();
    let lines = [
        "",
        "x ",
        "x (A) 2021-01-01 2021-01-02 t a:b",
        "(A) (B) t",
        "x x t",
        "2021-01-01 x t",
        "(A) x 2021-01-01 t",
        "2021-01-01 (A) t",
        "t a:b c:d e:f",
        "t a:b c d:e",
        "t a::b",
        "t a:b:c d:e",
        "t  a:b",
        " a:b",
        "a:b c:d",
        "t a:b\tc:d",
        "t a:b\u{a0}c:d",
        "t k:1 k:2",
        "t http://x.org",
        "t a:b ",
        "2021-01-01 2021-01-02 2021-01-03 t",
        "2021-01-01  t",
        "x(A) t",
        "x  (A) t",
    ];
    for line in lines {
        let t = Task::from_todotxt(String::from(line)).unwrap();
        let caps = whole.captures(line).unwrap();
        assert_eq!(t.completion, caps.name("completion").is_some());
        assert_eq!(
            t.priority,
            caps.name("priority").map(|p| p.as_str().chars().next().unwrap())
        );
        let dates = caps.name("compdate").is_some() as usize
            + caps.name("creadate").is_some() as usize;
        assert_eq!(t.creation_date.is_some(), dates >= 1);
        assert_eq!(t.completion_date.is_some(), dates == 2);
        let body = caps.name("content").unwrap().as_str();
        let mut pairs: Vec<(String, String)> = Vec::new();
        let content = match block.captures(body) {
            None => String::from(body),
            Some(all) => {
                for tag in one.captures_iter(&all[0]) {
                    let key = String::from(tag.name("key").unwrap().as_str());
                    let value = String::from(tag.name("value").unwrap().as_str());
                    match pairs.iter().position(|p| p.0 == key) {
                        Some(i) => pairs[i].1 = value,
                        None => pairs.push((key, value)),
                    }
                }
                block.replace_all(body, "").into_owned()
            }
        };
        assert_eq!(*t.get_content(), content);
        assert_eq!(*t.get_custom_tags(), pairs);
    }
    assert!(whole.captures("a\nb").is_none());
    assert!(Task::from_todotxt(String::from("a\nb")).is_err());
}
