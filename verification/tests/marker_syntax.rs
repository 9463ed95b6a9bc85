use regex::Regex;
use yarner_bib::scan::find_marker;

fn markers_by_scan(line: &str) -> Vec<(bool, String, String)> {
    let chars: Vec<char> = line.chars().collect();
    let mut found = vec![];
    let mut i = 0;
    while i < chars.len() {
        match find_marker(&chars, i) {
            Some((no_author, key_start, end)) => {
                found.push((
                    no_author,
                    chars[key_start..end].iter().collect(),
                    chars[i..end].iter().collect(),
                ));
                i = end;
            }
            None => i += 1,
        }
    }
    found
}

fn markers_by_pattern(pattern: &Regex, line: &str) -> Vec<(bool, String, String)> {
    pattern
        .captures_iter(line)
        .map(|caps| {
            (
                caps.get(1).is_some(),
                caps[2].to_string(),
                caps.get(0).unwrap().as_str().to_string(),
            )
        })
        .collect()
}

#[test]
fn the_scanner_agrees_with_the_marker_pattern() {
    let pattern = Regex::new(r##"(-)?@([^\[\]\s\.,;"#'()={}%]+)"##).unwrap();
    let lines = [
        "",
        "@Knuth1997",
        "-@Knuth1997",
        "A test citation: @Klabnik2018.",
        "A test citation: -@Klabnik2018.",
        "See @KeyA and -@KeyB, or (@KeyC; @KeyD) [@KeyE] {@KeyF} \"@KeyG\" '@KeyH'.",
        "--@a ---@b -@@c @-d @@ @ -@ - @x",
        "mail@example.org and a@b@c",
        "@a=1 @b%2 @c#3 @d.e @f,g @h;i",
        "@a\t@b\n@c\r@d\u{b}@e\u{c}@f",
        "@a\u{85}@b\u{a0}@c\u{1680}@d\u{2000}@e\u{200a}@f\u{2028}@g\u{2029}@h",
        "@a\u{202f}@b\u{205f}@c\u{3000}@d\u{200b}@e\u{feff}@f",
        "@ключ и -@键。 @clé-é",
        "@a-@b -@c-@d",
        "text-@key text -@key- text",
        "@a]@b[@c)@d(@e}@f{@g'@h\"@i",
        "@@@@ -@-@-@ @.@,@;",
    ];
    for line in lines {
        assert_eq!(markers_by_scan(line), markers_by_pattern(&pattern, line), "line {:?}", line);
    }
}

#[test]
fn every_character_is_classified_as_the_pattern_does() {
    let pattern = Regex::new(r##"(-)?@([^\[\]\s\.,;"#'()={}%]+)"##).unwrap();
    for code in (0u32..0x3100).chain(0xfff0..0x10010) {
        if let Some(c) = char::from_u32(code) {
            let line: String = ['@', 'k', c, 'x'].iter().collect();
            assert_eq!(
                markers_by_scan(&line),
                markers_by_pattern(&pattern, &line),
                "character {:?}",
                c
            );
        }
    }
}
