//! Reads generated SDL-like documents two ways, with the library's scanner
//! and with the `regex` crate driven by the equivalent patterns, and checks
//! that both readings agree. A type signature goes on across whitespace when
//! `!` or `]` follows the whitespace, or when a `[` is open and closes before
//! anything but signature characters and whitespace comes; the regex reading
//! extends each signature match by hand in that way.
use std::collections::BTreeMap;

use gqldiff::grammar::SchemaError;
use gqldiff::schema::parse_schema;
use regex::Regex;

type Arg = (String, String, bool);
type Fld = (String, String, Vec<Arg>);
type Reading = (Vec<(String, Vec<Fld>)>, Vec<(String, Vec<String>)>);

fn no_ws(s: &str) -> String {
    s.chars().filter(|c| !c.is_whitespace()).collect()
}

fn closing_brace(s: &str, start: usize) -> Option<usize> {
    let mut depth = 1i64;
    for (i, b) in s.as_bytes().iter().enumerate().skip(start) {
        if *b == b'{' {
            depth += 1;
        } else if *b == b'}' {
            depth -= 1;
            if depth == 0 {
                return Some(i);
            }
        }
    }
    None
}

struct Patterns {
    strip: Vec<Regex>,
    field_re: Regex,
    arg_re: Regex,
    value_re: Regex,
    type_re: Regex,
    enum_re: Regex,
    extend_re: Regex,
    ws_run: Regex,
    sig_run: Regex,
    default_re: Regex,
}

fn patterns() -> Patterns {
    Patterns {
        strip: [
            r#"(?s)"""(.*?)""""#,
            r#""[^"\n]*""#,
            r"#[^\n]*",
            r"@[A-Za-z_][A-Za-z0-9_]*\s*(\([^)]*\))?",
        ]
        .iter()
        .map(|p| Regex::new(p).unwrap())
        .collect(),
        field_re: Regex::new(r"(\w+)\s*(\([^)]*\))?\s*:\s*([\[\]!\w]+)").unwrap(),
        arg_re: Regex::new(r"(\w+)\s*:\s*([\[\]!\w]+)").unwrap(),
        value_re: Regex::new(r"[A-Za-z_][A-Za-z0-9_]*").unwrap(),
        type_re: Regex::new(r"\b(type|input|interface)\s+(\w+)\s*(?:implements\s+[^{]*)?\{")
            .unwrap(),
        enum_re: Regex::new(r"\benum\s+(\w+)\s*\{").unwrap(),
        extend_re: Regex::new(r"\bextend\s+$").unwrap(),
        ws_run: Regex::new(r"^\s+").unwrap(),
        sig_run: Regex::new(r"^[\[\]!\w]+").unwrap(),
        default_re: Regex::new(r"^\s*=").unwrap(),
    }
}

fn bracket_depth(mut depth: usize, sig: &str) -> usize {
    for c in sig.chars() {
        if c == '[' {
            depth += 1;
        } else if c == ']' && depth > 0 {
            depth -= 1;
        }
    }
    depth
}

/// Whether `depth` open brackets close in `rest` before anything but
/// signature characters and whitespace.
fn brackets_close(p: &Patterns, rest: &str, mut depth: usize) -> bool {
    for (i, c) in rest.char_indices() {
        if depth == 0 {
            return true;
        }
        if p.sig_run.is_match(&rest[i..]) {
            depth = bracket_depth(depth, &c.to_string());
        } else if !c.is_whitespace() {
            return false;
        }
    }
    depth == 0
}

/// End of the signature whose first run of signature characters is `start..end`.
fn extended_sig_end(p: &Patterns, text: &str, start: usize, end: usize) -> usize {
    let mut depth = bracket_depth(0, &text[start..end]);
    let mut i = end;
    while let Some(ws) = p.ws_run.find(&text[i..]) {
        let k = i + ws.end();
        let Some(run) = p.sig_run.find(&text[k..]) else { break };
        let next = text[k..].chars().next().unwrap();
        if next != '!' && next != ']' && !(depth > 0 && brackets_close(p, &text[k..], depth)) {
            break;
        }
        depth = bracket_depth(depth, run.as_str());
        i = k + run.end();
    }
    i
}

fn regex_args(p: &Patterns, inner: &str) -> Vec<Arg> {
    let mut args = Vec::new();
    let mut pos = 0;
    while let Some(a) = p.arg_re.captures_at(inner, pos) {
        let sig = a.get(2).unwrap();
        let u = extended_sig_end(p, inner, sig.start(), sig.end());
        let (has_default, end) = match p.default_re.find(&inner[u..]) {
            Some(m) => (true, u + m.end()),
            None => (false, u),
        };
        args.push((a[1].to_string(), no_ws(&inner[sig.start()..u]), has_default));
        pos = end;
    }
    args
}

fn regex_fields(p: &Patterns, body: &str) -> Vec<Fld> {
    let mut fields = Vec::new();
    let mut pos = 0;
    while let Some(f) = p.field_re.captures_at(body, pos) {
        let sig = f.get(3).unwrap();
        let u = extended_sig_end(p, body, sig.start(), sig.end());
        let args = match f.get(2) {
            Some(paren) => regex_args(
                p,
                paren.as_str().trim().trim_start_matches('(').trim_end_matches(')'),
            ),
            None => Vec::new(),
        };
        fields.push((f[1].to_string(), no_ws(&body[sig.start()..u]), args));
        pos = u;
    }
    fields
}

fn regex_reading(p: &Patterns, input: &str) -> Result<Reading, SchemaError> {
    let mut text = input.to_string();
    for re in &p.strip {
        text = re.replace_all(&text, " ").into_owned();
    }
    let (value_re, type_re) = (&p.value_re, &p.type_re);
    let mut types: BTreeMap<String, Vec<Fld>> = BTreeMap::new();
    for cap in type_re.captures_iter(&text) {
        // A type extension is not a declaration.
        if &cap[1] == "type" && p.extend_re.is_match(&text[..cap.get(0).unwrap().start()]) {
            continue;
        }
        let start = cap.get(0).unwrap().end();
        let close = closing_brace(&text, start).ok_or(SchemaError::UnterminatedBlock)?;
        types.insert(cap[2].to_string(), regex_fields(p, &text[start..close]));
    }
    let mut enums: BTreeMap<String, Vec<String>> = BTreeMap::new();
    for cap in p.enum_re.captures_iter(&text) {
        let start = cap.get(0).unwrap().end();
        let close = closing_brace(&text, start).ok_or(SchemaError::UnterminatedBlock)?;
        let values = value_re
            .find_iter(&text[start..close])
            .map(|m| m.as_str().to_string())
            .collect();
        enums.insert(cap[1].to_string(), values);
    }
    if types.is_empty() && enums.is_empty() {
        return Err(SchemaError::NoDeclarations);
    }
    Ok((types.into_iter().collect(), enums.into_iter().collect()))
}

fn library_reading(input: &str) -> Result<Reading, SchemaError> {
    let schema = parse_schema(input)?;
    let types = schema
        .types()
        .iter()
        .map(|t| {
            let fields = t
                .fields
                .iter()
                .map(|f| {
                    let args = f
                        .args
                        .iter()
                        .map(|a| (a.name.clone(), a.type_sig.clone(), a.has_default))
                        .collect();
                    (f.name.clone(), f.type_sig.clone(), args)
                })
                .collect();
            (t.name.clone(), fields)
        })
        .collect();
    let enums = schema.enums().iter().map(|e| (e.name.clone(), e.values.clone())).collect();
    Ok((types, enums))
}

const PIECES: &[&str] = &[
    "type", "input", "interface", "enum", "implements", " ", " ", " ", "\n", "\t", "{", "{", "}",
    "}", "(", ")", ":", ":", "!", "[", "]", "=", "\"", "\"\"\"", "#", "@", "deprecated", "A", "b",
    "_x", "9", "é", ",", "Query", "Foo", "Fooimplements", "x1", "\u{2003}", "٣", "·", "ID!",
    "implementsX", "typeA", "\r\n", "extend", "extend ", "reextend ",
];

struct Lcg(u64);

impl Lcg {
    fn next(&mut self, n: usize) -> usize {
        self.0 = self.0.wrapping_mul(6364136223846793005).wrapping_add(1442695040888963407);
        ((self.0 >> 33) as usize) % n
    }

    fn pick<'a>(&mut self, items: &[&'a str]) -> &'a str {
        items[self.next(items.len())]
    }
}

const KEYWORDS: &[&str] = &[
    "type", "input", "interface", "enum", "typ", "enumX", "extend type", "extend\n type",
    "xextend type", "extend input",
];
const NAMES: &[&str] = &["User", "Query", "Fooimplements", "A", "é", "x_1", "9", "Node"];
const GAPS: &[&str] = &["", " ", "  ", "\n", "\t", "\u{2003}"];
const BODY: &[&str] = &[
    "id", "name", ":", ": ", "ID!", "[String!]!", "[ ID ! ] !", " !", " ]", "[ [", "\n ]", "(", ")", "limit", "=", "10", ",", " ", "\n",
    "\"x\"", "\"\"\"doc\"\"\"", "#c\n", "@deprecated", "@d(r: \"y\")", "{", "}", "ACTIVE",
    "Int", "!", "[", "]", "é",
];

fn generated(seed: u64, len: usize) -> String {
    let mut g = Lcg(seed ^ 0x9e37_79b9_7f4a_7c15);
    let mut out = String::new();
    for _ in 0..len {
        match g.next(4) {
            0 => out.push_str(g.pick(PIECES)),
            _ => {
                out.push_str(g.pick(KEYWORDS));
                out.push_str(g.pick(&[" ", " ", "\n", ""]));
                out.push_str(g.pick(NAMES));
                out.push_str(g.pick(GAPS));
                if g.next(4) == 0 {
                    out.push_str("implements ");
                    out.push_str(g.pick(NAMES));
                    out.push_str(g.pick(GAPS));
                }
                if g.next(8) != 0 {
                    out.push('{');
                }
                for _ in 0..g.next(12) {
                    out.push_str(g.pick(BODY));
                }
                if g.next(8) != 0 {
                    out.push('}');
                }
                out.push_str(g.pick(GAPS));
            },
        }
    }
    out
}

#[test]
fn scanner_agrees_with_regex_patterns_on_generated_documents() {
    let p = patterns();
    let mut read_ok = 0;
    for seed in 0..20000u64 {
        let doc = generated(seed, 1 + (seed as usize % 6));
        let mine = library_reading(&doc);
        read_ok += mine.is_ok() as usize;
        assert_eq!(mine, regex_reading(&p, &doc), "document: {:?}", doc);
    }
    assert!(read_ok >= 2000, "only {} documents read", read_ok);
}

#[test]
fn scanner_agrees_with_regex_patterns_on_shaped_documents() {
    let shapes = [
        "type Fooimplements X { a: Int }",
        "type Fooimplements  { a: Int }",
        "type Foo implements A & B { a(x: Int = 3 , y : [ID!]! ): [T] }",
        "interface I{a:b}input J { c ( d : e ) : f }",
        "type T { a(((x: Int)): B }",
        "type T { a(x: Int: B }",
        "type T { \"\"\" unclosed\n a: B }",
        "type T { a: B @x(  y: \"z)\" ) c: D }",
        "enum E { A B_1 9C é D }  enum E { Z }",
        "type A { x: Int } type A { y: Int }",
        "typeX Y { a: B } type\u{2003}Z { q: R }",
        "type T { ids: [ID !]! f(a: [ Int ! ] = 3, b: Int ! ): [ [ X ] ] ! g: H }",
        "type T { a: [Int\n b: String }",
        "type T { a: Int ] b: C }",
        "type T { tags: [String b: Int }",
        "type T { tags: [String !\n b: [Int] c: [ [ X ]\n ] d: [Y ) }",
        "type T { nested { a: B } c: D }",
        "type T { a: B",
        "enum E { A ",
        "# type A { x: Int }\nenum B { C }",
    ];
    let p = patterns();
    for doc in shapes {
        assert_eq!(library_reading(doc), regex_reading(&p, doc), "document: {:?}", doc);
    }
}
