//! Renders Rust source text as a PlantUML class diagram through the
//! outside renderer.

use vstd::prelude::*;

use crate::syntax::{puml_of, render_code, syn_accepts};
use crate::text::{contains_seq, find_at, lemma_contains_of_match, lemma_find_at_bounds, starts_with_seq};

verus! {

/// Diagram text as the renderer produces it: the start marker on its own
/// line, a blank line, two rendered sections, and the end marker.
pub open spec fn diagram_shape(d: Seq<char>) -> bool {
    exists|a: Seq<char>, b: Seq<char>| d == "@startuml\n\n"@ + a + "\n"@ + b + "\n@enduml"@
}

/// Every diagram-shaped text begins with the start marker and ends with
/// the end marker.
pub proof fn lemma_diagram_markers(d: Seq<char>)
    requires
        diagram_shape(d),
    ensures
        starts_with_seq(d, "@startuml"@),
        d.len() >= 20,
        d.subrange(d.len() - 7, d.len() as int) == "@enduml"@,
{
    reveal_strlit("@startuml\n\n");
    reveal_strlit("@startuml");
    reveal_strlit("\n");
    reveal_strlit("\n@enduml");
    reveal_strlit("@enduml");
    let (a, b) = choose|a: Seq<char>, b: Seq<char>|
        d == "@startuml\n\n"@ + a + "\n"@ + b + "\n@enduml"@;
    assert(d.subrange(0, 9) =~= "@startuml"@);
    assert(d.subrange(d.len() - 7, d.len() as int) =~= "@enduml"@);
}

/// A diagram built from two rendered sections never contains the
/// Markdown heading marker, as long as neither section contains it
/// itself: the sections are the renderer's own text, so only this
/// conditional form can be shown of them.
pub proof fn lemma_diagram_no_heading(d: Seq<char>, a: Seq<char>, b: Seq<char>)
    requires
        d == "@startuml\n\n"@ + a + "\n"@ + b + "\n@enduml"@,
        !contains_seq(a, "## "@),
        !contains_seq(b, "## "@),
    ensures
        !contains_seq(d, "## "@),
{
    reveal_strlit("@startuml\n\n");
    reveal_strlit("\n");
    reveal_strlit("\n@enduml");
    reveal_strlit("## ");
    let p = "## "@;
    let na = a.len() as int;
    let nb = b.len() as int;
    if contains_seq(d, p) {
        lemma_find_at_bounds(d, p, 0);
        let k = find_at(d, p, 0)->Some_0;
        assert(d.subrange(k, k + 3) == p);
        assert(forall|t: int| 0 <= t < 3 ==> #[trigger] p[t] == d.subrange(k, k + 3)[t]);
        if k < 11 {
            assert(p[0] == d[k]);
            assert(false);
        } else if k + 3 <= 11 + na {
            assert(a.subrange(k - 11, k - 8) =~= d.subrange(k, k + 3));
            lemma_contains_of_match(a, p, k - 11);
            assert(false);
        } else if k <= 11 + na {
            assert(d[11 + na] == '\n');
            assert(p[11 + na - k] == d[11 + na]);
            assert(false);
        } else if k + 3 <= 12 + na + nb {
            assert(b.subrange(k - 12 - na, k - 9 - na) =~= d.subrange(k, k + 3));
            lemma_contains_of_match(b, p, k - 12 - na);
            assert(false);
        } else if k <= 12 + na + nb {
            assert(d[12 + na + nb] == '\n');
            assert(p[12 + na + nb - k] == d[12 + na + nb]);
            assert(false);
        } else {
            assert(p[0] == d[k]);
            assert(false);
        }
    }
}

/// Turns Rust source code into a PlantUML diagram description.
pub struct PlantumlParser {
    /// The raw Rust source code that will be rendered as a diagram.
    pub raw_rust_code: String,
}

impl PlantumlParser {
    /// Renders the held source as PlantUML text, wrapped in the fixed
    /// `@startuml` / `@enduml` markers.
    pub fn parse_code_to_string(&self) -> (r: String)
        requires
            syn_accepts(self.raw_rust_code@),
        ensures
            r@ == puml_of(self.raw_rust_code@),
            diagram_shape(r@),
    {
        render_code(self.raw_rust_code.as_str())
    }
}

} // verus!
