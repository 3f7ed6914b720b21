//! Output-format selection: the closed set of rendering modes and the
//! case-insensitive parser that picks one from a configuration string.

use vstd::prelude::*;
use vstd::std_specs::iter::IteratorSpec;

verus! {

/// The two rendering modes for the duplicate report.
#[derive(Debug, Clone, Copy, PartialEq, Eq, Structural)]
pub enum OutputFormat {
    Human,
    Json,
}

/// A configuration string that names no known output format.
/// Holds the rejected input so a caller can report it.
pub struct FormatError {
    pub input: String,
}

impl FormatError {
    /// The error text shown to the user, naming the rejected value.
    pub fn message(&self) -> (r: String)
        ensures
            r@ == "Cannot map "@ + self.input@ + " to any output format"@,
    {
        let mut r = String::new();
        r.append("Cannot map ");
        r.append(self.input.as_str());
        r.append(" to any output format");
        r
    }
}

/// ASCII lower-casing of a single character: `A`..`Z` map to `a`..`z`,
/// every other character is unchanged.
pub open spec fn lower_char(c: char) -> char {
    if 'A' <= c && c <= 'Z' {
        ((c as u8 + 32) as u8) as char
    } else {
        c
    }
}

/// ASCII lower-casing of a character sequence, pointwise.
pub open spec fn lower_chars(s: Seq<char>) -> Seq<char> {
    s.map_values(|c: char| lower_char(c))
}

impl OutputFormat {
    /// Parses a format name, ignoring ASCII case: `human` selects
    /// `Human`, `json` selects `Json`, anything else is rejected.
    pub fn from_str(s: &str) -> (r: Result<OutputFormat, FormatError>)
        ensures
            r == Ok::<OutputFormat, FormatError>(OutputFormat::Human) <==> lower_chars(s@)
                == "human"@,
            r == Ok::<OutputFormat, FormatError>(OutputFormat::Json) <==> lower_chars(s@)
                == "json"@,
            r is Err <==> (lower_chars(s@) != "human"@ && lower_chars(s@) != "json"@),
            r is Err ==> r->Err_0.input@ == s@,
    {
        let lowered = to_lower_chars(s);
        proof {
            reveal_strlit("human");
            reveal_strlit("json");
        }
        if lowered.len() == 5 && lowered[0] == 'h' && lowered[1] == 'u' && lowered[2] == 'm'
            && lowered[3] == 'a' && lowered[4] == 'n' {
            proof {
                assert(lower_chars(s@) =~= "human"@);
            }
            Ok(OutputFormat::Human)
        } else if lowered.len() == 4 && lowered[0] == 'j' && lowered[1] == 's' && lowered[2] == 'o'
            && lowered[3] == 'n' {
            proof {
                assert(lower_chars(s@) =~= "json"@);
            }
            Ok(OutputFormat::Json)
        } else {
            proof {
                assert(lower_chars(s@) != "human"@) by {
                    if lower_chars(s@) =~= "human"@ {
                        assert(false);
                    }
                }
                assert(lower_chars(s@) != "json"@) by {
                    if lower_chars(s@) =~= "json"@ {
                        assert(false);
                    }
                }
            }
            Err(FormatError { input: s.to_owned() })
        }
    }
}

/// Collects the characters of `s`, each lowered by `lower_char`.
fn to_lower_chars(s: &str) -> (r: Vec<char>)
    ensures
        r@ == lower_chars(s@),
{
    let mut it = s.chars();
    let mut out: Vec<char> = Vec::new();
    loop
        invariant
            out@.len() + it.remaining().len() == s@.len(),
            it.remaining() == s@.skip(out@.len() as int),
            forall|i: int| 0 <= i < out@.len() ==> out@[i] == lower_char(s@[i]),
            it.decrease() is Some,
        ensures
            out@.len() == s@.len(),
            forall|i: int| 0 <= i < out@.len() ==> out@[i] == lower_char(s@[i]),
        decreases it.decrease()->0,
    {
        match it.next() {
            Some(c) => {
                let lc = lower_one(c);
                out.push(lc);
            },
            None => {
                break ;
            },
        }
    }
    proof {
        assert(out@ =~= lower_chars(s@));
    }
    out
}

/// Lowers a single character in executable code.
fn lower_one(c: char) -> (r: char)
    ensures
        r == lower_char(c),
{
    if 'A' <= c && c <= 'Z' {
        ((c as u8) + 32) as char
    } else {
        c
    }
}

} // verus!
