//! The choice of a parser, and what becomes of a file.
use vstd::prelude::*;
use crate::error::{AppError, AppResult};
use crate::models::configuration::PatternConfig;
use crate::numbers;
use crate::parser::document;
use crate::parser::ini;
use crate::parser::plain;
use crate::parser::properties;
use crate::parser::template::TemplatableConfig;
use crate::parser::xml;
use crate::text;

verus! {

/// Larger files are not parsed: every parser holds the whole file in memory,
/// and the contents are not trusted.
pub const MAX_CONFIG_FILE_SIZE: u64 = 67108864;

/// How a file is read.
#[derive(Debug, Clone, Copy, PartialEq, Eq, Structural)]
pub enum ParserKind {
    Properties,
    File,
    Yaml,
    Json,
    Ini,
    Xml,
    Unknown,
}

/// What becomes of a file.
#[derive(Debug)]
pub enum Rewrite {
    /// it gets new content
    Write(Vec<u8>),
    /// its parser is not known; it stays as it is
    Skip,
}

/// The parser with this name.
pub open spec fn kind_of(name: Seq<char>) -> ParserKind {
    if name == "properties"@ {
        ParserKind::Properties
    } else if name == "file"@ {
        ParserKind::File
    } else if name == "yaml"@ || name == "yml"@ {
        ParserKind::Yaml
    } else if name == "json"@ {
        ParserKind::Json
    } else if name == "ini"@ {
        ParserKind::Ini
    } else if name == "xml"@ {
        ParserKind::Xml
    } else {
        ParserKind::Unknown
    }
}

/// The message for a file that is too large.
pub open spec fn too_large(path: Seq<char>, size: u64) -> Seq<char> {
    "parser: refusing to parse configuration file "@ + path + ": size "@ + numbers::decimal(
        size as nat,
    ) + " exceeds limit of 67108864 bytes"@
}

/// The parser with this name.
pub fn parser_kind(name: &str) -> (r: ParserKind)
    ensures
        r == kind_of(name@),
{
    if text::same(name, "properties") {
        ParserKind::Properties
    } else if text::same(name, "file") {
        ParserKind::File
    } else if text::same(name, "yaml") || text::same(name, "yml") {
        ParserKind::Yaml
    } else if text::same(name, "json") {
        ParserKind::Json
    } else if text::same(name, "ini") {
        ParserKind::Ini
    } else if text::same(name, "xml") {
        ParserKind::Xml
    } else {
        ParserKind::Unknown
    }
}

/// Refuses a file that is too large to be parsed.
pub fn check_size(path: &str, size: u64) -> (r: AppResult<()>)
    ensures
        match r {
            Ok(_) => size <= MAX_CONFIG_FILE_SIZE,
            Err(e) => size > MAX_CONFIG_FILE_SIZE && crate::error::is_bad_request(
                e,
                too_large(path@, size),
            ),
        },
{
    if size > MAX_CONFIG_FILE_SIZE {
        let mut m = "parser: refusing to parse configuration file ".to_owned();
        m.append(path);
        m.append(": size ");
        let n = numbers::decimal_u64(size);
        m.append(n.as_str());
        m.append(" exceeds limit of 67108864 bytes");
        return Err(AppError::BadRequest(m));
    }
    Ok(())
}

/// Applies the rules for a file to its content.
pub fn apply(path: &str, raw: &[u8], file: &PatternConfig, daemon: &TemplatableConfig) -> (r:
    AppResult<Rewrite>)
    ensures
        raw@.len() > MAX_CONFIG_FILE_SIZE ==> r is Err && crate::error::is_bad_request(
            r->Err_0,
            too_large(path@, raw@.len() as u64),
        ),
        raw@.len() <= MAX_CONFIG_FILE_SIZE ==> match kind_of(file.parser@) {
            ParserKind::Properties => r matches Ok(Rewrite::Write(b)) && b@
                == vstd::utf8::encode_utf8(
                properties::properties_text(
                    text::utf8_lossy(raw@),
                    file.replace@,
                    daemon.interface@,
                ),
            ),
            ParserKind::File => r matches Ok(Rewrite::Write(b)) && b@ == plain::plain_text(
                raw@,
                file.replace@,
                daemon.interface@,
            ),
            ParserKind::Ini => r matches Ok(Rewrite::Write(b)) && b@ == vstd::utf8::encode_utf8(
                ini::ini_text(text::utf8_lossy(raw@), file.replace@, daemon.interface@),
            ),
            ParserKind::Yaml => match document::yaml_file(
                raw@,
                file.replace@,
                daemon.interface@,
            ) {
                Ok(t) => r matches Ok(Rewrite::Write(b)) && b@ == vstd::utf8::encode_utf8(t),
                Err(m) => r is Err && crate::error::is_bad_request(r->Err_0, m),
            },
            ParserKind::Json => match document::json_file(
                raw@,
                file.replace@,
                daemon.interface@,
            ) {
                Ok(t) => r matches Ok(Rewrite::Write(b)) && b@ == t,
                Err(m) => r is Err && crate::error::is_bad_request(r->Err_0, m),
            },
            ParserKind::Unknown => r matches Ok(Rewrite::Skip),
            ParserKind::Xml => match r {
                Ok(Rewrite::Write(b)) => exists|root: Option<xml::Elem>|
                    xml::parses_to(raw@, root) && (root is Some || file.replace@.len() > 0) && b@
                        == vstd::utf8::encode_utf8(
                        #[trigger] xml::xml_text(
                            xml::has_prolog(raw@),
                            root,
                            file.replace@,
                            daemon.interface@,
                        ),
                    ),
                Ok(_) => false,
                Err(e) => file.replace@.len() == 0 && (xml::parsed_listing(raw@) matches Err(m)
                    && crate::error::is_bad_request(e, "parser: invalid xml config: "@ + m)),
            },
        },
{
    check_size(path, raw.len() as u64)?;
    match parser_kind(file.parser.as_str()) {
        ParserKind::Properties => {
            let out = properties::parse_properties_file(raw, file, daemon);
            Ok(Rewrite::Write(text::bytes_of(out.as_str())))
        },
        ParserKind::File => Ok(Rewrite::Write(plain::parse_text_file(raw, file, daemon))),
        ParserKind::Yaml => match document::parse_yaml_file(raw, file, daemon) {
            Ok(out) => Ok(Rewrite::Write(text::bytes_of(out.as_str()))),
            Err(e) => Err(e),
        },
        ParserKind::Json => match document::parse_json_file(raw, file, daemon) {
            Ok(out) => Ok(Rewrite::Write(out)),
            Err(e) => Err(e),
        },
        ParserKind::Ini => {
            let out = ini::parse_ini_file(raw, file, daemon);
            Ok(Rewrite::Write(text::bytes_of(out.as_str())))
        },
        ParserKind::Xml => match xml::parse_xml_file(raw, file, daemon) {
            Ok(out) => Ok(Rewrite::Write(text::bytes_of(out.as_str()))),
            Err(e) => Err(e),
        },
        ParserKind::Unknown => Ok(Rewrite::Skip),
    }
}

/// What is done with a configuration file before a boot.
#[derive(Debug, Clone, Copy, PartialEq, Eq, Structural)]
pub enum FileStep {
    /// its path leads out of the server's directory; it is passed over
    Unsafe,
    /// it is a plain file that does not exist; it is passed over
    Absent,
    /// it does not exist yet and is created empty first
    CreateAndRewrite,
    Rewrite,
}

/// Decides what is done with a configuration file. Every kind of file but a
/// plain one exists after this step.
pub fn file_step(path_is_safe: bool, exists: bool, parser: &str) -> (r: FileStep)
    ensures
        r == (if !path_is_safe {
            FileStep::Unsafe
        } else if exists {
            FileStep::Rewrite
        } else if parser@ == "file"@ {
            FileStep::Absent
        } else {
            FileStep::CreateAndRewrite
        }),
{
    if !path_is_safe {
        FileStep::Unsafe
    } else if exists {
        FileStep::Rewrite
    } else if text::same(parser, "file") {
        FileStep::Absent
    } else {
        FileStep::CreateAndRewrite
    }
}

/// The parsers by their names.
pub proof fn law_parsers_by_name(name: Seq<char>)
    ensures
        kind_of("properties"@) == ParserKind::Properties,
        kind_of("file"@) == ParserKind::File,
        kind_of("yaml"@) == ParserKind::Yaml && kind_of("yml"@) == ParserKind::Yaml,
        kind_of("json"@) == ParserKind::Json,
        kind_of("ini"@) == ParserKind::Ini,
        kind_of("xml"@) == ParserKind::Xml,
        name != "properties"@ && name != "file"@ && name != "yaml"@ && name != "yml"@ && name
            != "json"@ && name != "ini"@ && name != "xml"@ ==> kind_of(name)
            == ParserKind::Unknown,
{
    reveal_strlit("properties");
    reveal_strlit("file");
    reveal_strlit("yaml");
    reveal_strlit("yml");
    reveal_strlit("json");
    reveal_strlit("ini");
    reveal_strlit("xml");
    assert("properties"@.len() == 10);
    assert("file"@.len() == 4 && "file"@[0] == 'f');
    assert("yaml"@.len() == 4 && "yaml"@[0] == 'y');
    assert("yml"@.len() == 3 && "yml"@[0] == 'y');
    assert("json"@.len() == 4 && "json"@[0] == 'j');
    assert("ini"@.len() == 3 && "ini"@[0] == 'i');
    assert("xml"@.len() == 3 && "xml"@[0] == 'x');
}

} // verus!
