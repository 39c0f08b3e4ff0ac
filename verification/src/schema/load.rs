//! Which reader a schema file takes: chosen by its extension, compared
//! without regard to ASCII case.

use vstd::prelude::*;
use crate::text::{chars_of, owned, push_char, push_str, str_eq};

verus! {

/// How a schema file is written.
#[derive(Debug, Clone, Copy, PartialEq, Eq)]
pub enum SchemaFormat {
    /// JSON text.
    Json,
    /// The TOML encoding of JSON.
    Toml,
}

/// A character with ASCII upper case turned to lower case.
pub open spec fn ascii_lower(c: char) -> char {
    if 'A' <= c && c <= 'Z' {
        ((c as u32) + 32) as char
    } else {
        c
    }
}

/// A text with ASCII upper case turned to lower case.
pub open spec fn ascii_lower_text(s: Seq<char>) -> Seq<char> {
    Seq::new(s.len(), |i: int| ascii_lower(s[i]))
}

/// `str::to_ascii_lowercase`.
pub fn to_ascii_lower(s: &str) -> (r: String)
    ensures
        r@ == ascii_lower_text(s@),
{
    let v = chars_of(s);
    let mut r = String::new();
    let mut i: usize = 0;
    while i < v.len()
        invariant
            v@ == s@,
            i <= v@.len(),
            r@ == ascii_lower_text(s@).take(i as int),
        decreases v@.len() - i,
    {
        let c = v[i];
        let l = if 'A' <= c && c <= 'Z' {
            let code = ((c as u32) + 32) as u8;
            code as char
        } else {
            c
        };
        assert(l == ascii_lower(c));
        push_char(&mut r, l);
        i = i + 1;
        assert(r@ =~= ascii_lower_text(s@).take(i as int));
    }
    assert(ascii_lower_text(s@).take(i as int) =~= ascii_lower_text(s@));
    r
}

/// The reader for a schema file at `path` with extension `ext`: `.json`
/// and `.toml` (in any ASCII case) are read as such; any other extension,
/// or none, is refused with a message that names the file.
pub open spec fn schema_format_spec(path: Seq<char>, ext: Option<Seq<char>>) -> Result<SchemaFormat, Seq<char>> {
    match ext {
        Some(e) => if ascii_lower_text(e) == "json"@ {
            Ok(SchemaFormat::Json)
        } else if ascii_lower_text(e) == "toml"@ {
            Ok(SchemaFormat::Toml)
        } else {
            Err("unsupported schema format '."@ + ascii_lower_text(e) + "' for '"@ + path
                + "' — only .json and .toml are supported"@)
        },
        None => Err("schema file '"@ + path + "' has no extension — append .json or .toml"@),
    }
}

/// The reader for a schema file, as [`schema_format_spec`].
pub fn schema_format(path: &str, ext: Option<&str>) -> (r: Result<SchemaFormat, String>)
    ensures
        match r {
            Ok(f) => schema_format_spec(path@, match ext {
                Some(e) => Some(e@),
                None => None,
            }) == Ok::<SchemaFormat, Seq<char>>(f),
            Err(m) => schema_format_spec(path@, match ext {
                Some(e) => Some(e@),
                None => None,
            }) == Err::<SchemaFormat, Seq<char>>(m@),
        },
{
    match ext {
        Some(e) => {
            let lower = to_ascii_lower(e);
            if str_eq(lower.as_str(), "json") {
                Ok(SchemaFormat::Json)
            } else if str_eq(lower.as_str(), "toml") {
                Ok(SchemaFormat::Toml)
            } else {
                let mut m = owned("unsupported schema format '.");
                push_str(&mut m, lower.as_str());
                push_str(&mut m, "' for '");
                push_str(&mut m, path);
                push_str(&mut m, "' — only .json and .toml are supported");
                Err(m)
            }
        },
        None => {
            let mut m = owned("schema file '");
            push_str(&mut m, path);
            push_str(&mut m, "' has no extension — append .json or .toml");
            Err(m)
        },
    }
}

} // verus!
