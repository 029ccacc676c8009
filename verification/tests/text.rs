use ironclaw::entities::decode_xml_entities;
use ironclaw::number::decimal_string;
use ironclaw::tool::{respond, Response};
use ironclaw::url::url_encode;
use ironclaw::whitespace::{collapse_ws, is_blank, is_white};
use ironclaw::xml::{extract_attr, extract_tag_text};

const SAMPLES: [&str; 9] = [
    "",
    " ",
    "a",
    "  two  words\n",
    "\u{a0}x\u{2003}y\u{3000}",
    "a\u{200b}b c",
    "\t\r\n",
    "one two three",
    "é \u{85} ü",
];

#[test]
fn white_space_is_that_of_unicode() {
    for n in 0..=0x10ffffu32 {
        if let Some(c) = char::from_u32(n) {
            assert_eq!(is_white(c), c.is_whitespace(), "{:x}", n);
        }
    }
}

#[test]
fn collapse_joins_words_by_single_spaces() {
    for s in SAMPLES {
        let expected = s.split_whitespace().collect::<Vec<_>>().join(" ");
        assert_eq!(collapse_ws(s), expected);
        assert_eq!(collapse_ws(&collapse_ws(s)), expected);
        assert_eq!(is_blank(s), s.trim().is_empty());
    }
    assert_eq!(collapse_ws("  two \n words\t"), "two words");
}

#[test]
fn entities_are_decoded_once() {
    assert_eq!(decode_xml_entities("&lt;a&gt; &amp; &quot;b&quot; &apos;c&apos;"), "<a> & \"b\" 'c'");
    assert_eq!(decode_xml_entities("&amp;lt;"), "&lt;");
    assert_eq!(decode_xml_entities("&amp;amp;"), "&amp;");
    assert_eq!(decode_xml_entities("&&amp;quot;&lt"), "&&quot;&lt");
    assert_eq!(decode_xml_entities("&am&quot;p;"), "&am\"p;");
    assert_eq!(decode_xml_entities("&#39; é"), "&#39; é");
    assert_eq!(decode_xml_entities(""), "");
}

#[test]
fn escaped_text_is_decoded_to_itself() {
    for s in ["<a href=\"x\">&amp;</a>", "'&&lt;'", "plain", "&quot;é"] {
        let escaped: String = s
            .chars()
            .map(|c| match c {
                '"' => "&quot;".to_string(),
                '\'' => "&apos;".to_string(),
                '<' => "&lt;".to_string(),
                '>' => "&gt;".to_string(),
                '&' => "&amp;".to_string(),
                _ => c.to_string(),
            })
            .collect();
        assert_eq!(decode_xml_entities(&escaped), s);
        let xml = format!("<b>no</b><a>{}</a><a>other</a>", escaped);
        assert_eq!(
            decode_xml_entities(&extract_tag_text(&xml, "a").unwrap()),
            s
        );
        let tag = format!("<x b=\"no\" a=\"{}\">", escaped);
        assert_eq!(decode_xml_entities(&extract_attr(&tag, "a").unwrap()), s);
    }
}

#[test]
fn tag_text_is_that_of_the_first_element() {
    assert_eq!(extract_tag_text("<a>1</a><a>2</a>", "a").as_deref(), Some("1"));
    assert_eq!(extract_tag_text("</a><a>1</a>", "a").as_deref(), Some("1"));
    assert_eq!(extract_tag_text("<a></a>", "a").as_deref(), Some(""));
    assert_eq!(extract_tag_text("<é>ü</é>", "é").as_deref(), Some("ü"));
    assert_eq!(extract_tag_text("<a>1", "a"), None);
    assert_eq!(extract_tag_text("<a b=\"c\">1</a>", "a"), None);
    assert_eq!(extract_tag_text("", "a"), None);
}

#[test]
fn attribute_is_the_text_between_its_quotes() {
    assert_eq!(extract_attr("<x term=\"t\">", "term").as_deref(), Some("t"));
    assert_eq!(extract_attr("<x term=\"\">", "term").as_deref(), Some(""));
    assert_eq!(extract_attr("<x term=\"t", "term"), None);
    assert_eq!(extract_attr("<x term='t'>", "term"), None);
}

#[test]
fn url_encoding_keeps_unreserved_bytes_alone() {
    assert_eq!(url_encode("AZaz09-_.~"), "AZaz09-_.~");
    assert_eq!(url_encode("a b"), "a%20b");
    assert_eq!(url_encode("ti:x&y=+/?#%"), "ti%3Ax%26y%3D%2B%2F%3F%23%25");
    assert_eq!(url_encode("é€"), "%C3%A9%E2%82%AC");
    assert_eq!(url_encode(""), "");
}

#[test]
fn url_encoding_is_decoded_to_itself() {
    for s in ["a b", "é&€=%", "\u{10ffff}\u{0}"] {
        let encoded = url_encode(s);
        let bytes = encoded.as_bytes();
        let mut decoded = Vec::new();
        let mut i = 0;
        while i < bytes.len() {
            if bytes[i] == b'%' {
                decoded.push(u8::from_str_radix(&encoded[i + 1..i + 3], 16).unwrap());
                i += 3;
            } else {
                decoded.push(bytes[i]);
                i += 1;
            }
        }
        assert_eq!(String::from_utf8(decoded).unwrap(), s);
    }
}

#[test]
fn decimal_notation_is_that_of_std() {
    for n in [0, 1, 9, 10, 99, 100, 429, 65535, u64::MAX] {
        assert_eq!(decimal_string(n), n.to_string());
    }
}

#[test]
fn response_has_an_output_or_an_error() {
    assert_eq!(
        respond(Ok("out".to_string())),
        Response {
            output: Some("out".to_string()),
            error: None
        }
    );
    assert_eq!(
        respond(Err("bad".to_string())),
        Response {
            output: None,
            error: Some("bad".to_string())
        }
    );
}
