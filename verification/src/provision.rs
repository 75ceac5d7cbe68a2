use vstd::prelude::*;
use vstd::string::StrSliceExecFns;

use crate::messages::push_str_chars;
use crate::messages::string_from_chars;

verus! {

/// The supported grammars, one per language the registry knows.
#[derive(Clone, Copy, Debug, PartialEq, Eq, Structural)]
pub enum SupportedLanguage {
    Rust,
    TypeScript,
    Tsx,
    Svelte,
}

/// What provisioning needs in order to build and load one grammar: where its
/// sources live, the name of the grammar, and from that name the export
/// symbol the loaded artifact must offer.  Pure data; adding a language is a
/// registry change, not new control flow.
pub struct GrammarDescriptor {
    pub grammar_name: &'static str,
    pub source_repo: &'static str,
    pub source_subdir: &'static str,
}

/// Pure lookup of the registry entry for a language; total, never fails.
pub fn resolve(language: SupportedLanguage) -> (r: GrammarDescriptor)
    ensures
        language is Rust ==> r.grammar_name@ == "rust"@ && r.source_subdir@ == ""@
            && r.source_repo@ == "https://github.com/tree-sitter/tree-sitter-rust"@,
        language is TypeScript ==> r.grammar_name@ == "typescript"@ && r.source_subdir@
            == "typescript"@ && r.source_repo@
            == "https://github.com/tree-sitter/tree-sitter-typescript"@,
        language is Tsx ==> r.grammar_name@ == "tsx"@ && r.source_subdir@ == "tsx"@
            && r.source_repo@ == "https://github.com/tree-sitter/tree-sitter-typescript"@,
        language is Svelte ==> r.grammar_name@ == "svelte"@ && r.source_subdir@ == ""@
            && r.source_repo@ == "https://github.com/Himujjal/tree-sitter-svelte"@,
{
    match language {
        SupportedLanguage::Rust => GrammarDescriptor {
            grammar_name: "rust",
            source_repo: "https://github.com/tree-sitter/tree-sitter-rust",
            source_subdir: "",
        },
        SupportedLanguage::TypeScript => GrammarDescriptor {
            grammar_name: "typescript",
            source_repo: "https://github.com/tree-sitter/tree-sitter-typescript",
            source_subdir: "typescript",
        },
        SupportedLanguage::Tsx => GrammarDescriptor {
            grammar_name: "tsx",
            source_repo: "https://github.com/tree-sitter/tree-sitter-typescript",
            source_subdir: "tsx",
        },
        SupportedLanguage::Svelte => GrammarDescriptor {
            grammar_name: "svelte",
            source_repo: "https://github.com/Himujjal/tree-sitter-svelte",
            source_subdir: "",
        },
    }
}

/// The character mapping that turns a grammar name into a symbol fragment.
pub open spec fn symbol_char(c: char) -> char {
    if c == '-' {
        '_'
    } else {
        c
    }
}

/// The export symbol a loadable grammar artifact must offer, derived
/// deterministically from the grammar name.
pub open spec fn export_symbol_of(name: Seq<char>) -> Seq<char> {
    "tree_sitter_"@ + name.map_values(|c: char| symbol_char(c))
}

/// Derives the export symbol for a grammar name: the conventional prefix,
/// then the name with every dash turned into an underscore.
pub fn export_symbol(name: &str) -> (r: String)
    ensures
        r@ == export_symbol_of(name@),
{
    let mut out: Vec<char> = Vec::new();
    let prefix = "tree_sitter_";
    let pn = prefix.unicode_len();
    let mut i: usize = 0;
    while i < pn
        invariant
            i <= pn == prefix@.len(),
            prefix@ == "tree_sitter_"@,
            out@ == prefix@.subrange(0, i as int),
        decreases pn - i,
    {
        out.push(prefix.get_char(i));
        assert(out@ =~= prefix@.subrange(0, i as int + 1));
        i = i + 1;
    }
    assert(out@ =~= "tree_sitter_"@);
    let ghost base = out@;
    let n = name.unicode_len();
    let mut k: usize = 0;
    while k < n
        invariant
            k <= n == name@.len(),
            out@ == base + name@.subrange(0, k as int).map_values(|c: char| symbol_char(c)),
        decreases n - k,
    {
        let c = name.get_char(k);
        let mapped = if c == '-' {
            '_'
        } else {
            c
        };
        out.push(mapped);
        assert(out@ =~= base + name@.subrange(0, k as int + 1).map_values(
            |ch: char| symbol_char(ch),
        )) by {
            assert(name@.subrange(0, k as int + 1) =~= name@.subrange(0, k as int).push(
                name@[k as int],
            ));
            assert(name@.subrange(0, k as int + 1).map_values(|ch: char| symbol_char(ch))
                =~= name@.subrange(0, k as int).map_values(|ch: char| symbol_char(ch)).push(
                symbol_char(name@[k as int]),
            ));
        }
        k = k + 1;
    }
    proof {
        assert(name@.subrange(0, n as int) =~= name@);
        assert(out@ == export_symbol_of(name@));
    }
    string_from_chars(&out)
}

/// Whether the two strings hold the same characters.
fn str_eq(a: &str, b: &str) -> (r: bool)
    ensures
        r == (a@ == b@),
{
    let n = a.unicode_len();
    if n != b.unicode_len() {
        proof {
            assert(a@.len() != b@.len());
        }
        return false;
    }
    let mut i: usize = 0;
    while i < n
        invariant
            i <= n == a@.len(),
            b@.len() == n,
            forall|k: int| 0 <= k < i ==> a@[k] == b@[k],
        decreases n - i,
    {
        if a.get_char(i) != b.get_char(i) {
            return false;
        }
        i = i + 1;
    }
    proof {
        assert(a@ =~= b@);
    }
    true
}

/// The four wire tags are pairwise distinct (their lengths already are).
proof fn lemma_language_tags_distinct()
    ensures
        "rust"@ != "typescript"@,
        "rust"@ != "tsx"@,
        "rust"@ != "svelte"@,
        "typescript"@ != "tsx"@,
        "typescript"@ != "svelte"@,
        "tsx"@ != "svelte"@,
{
    reveal_strlit("rust");
    reveal_strlit("typescript");
    reveal_strlit("tsx");
    reveal_strlit("svelte");
    assert("rust"@.len() == 4);
    assert("typescript"@.len() == 10);
    assert("tsx"@.len() == 3);
    assert("svelte"@.len() == 6);
}

/// The canonical tag of a language on the wire.
pub fn language_tag(language: SupportedLanguage) -> (r: &'static str)
    ensures
        language is Rust <==> r@ == "rust"@,
        language is TypeScript <==> r@ == "typescript"@,
        language is Tsx <==> r@ == "tsx"@,
        language is Svelte <==> r@ == "svelte"@,
{
    proof {
        lemma_language_tags_distinct();
    }
    match language {
        SupportedLanguage::Rust => "rust",
        SupportedLanguage::TypeScript => "typescript",
        SupportedLanguage::Tsx => "tsx",
        SupportedLanguage::Svelte => "svelte",
    }
}

/// The message for a language tag outside the closed enumeration: it names
/// the tag and lists exactly the valid choices.
pub open spec fn unknown_language_message(tag: Seq<char>) -> Seq<char> {
    "unknown variant `"@ + tag + "`, expected one of `rust`, `typescript`, `tsx`, `svelte`"@
}

/// Maps a wire tag to its language.  Exactly the four tags of the closed
/// enumeration are accepted; anything else is refused with a message that
/// enumerates the valid choices.
pub fn language_from_tag(tag: &str) -> (r: Result<SupportedLanguage, String>)
    ensures
        r matches Ok(l) ==> {
            &&& l is Rust <==> tag@ == "rust"@
            &&& l is TypeScript <==> tag@ == "typescript"@
            &&& l is Tsx <==> tag@ == "tsx"@
            &&& l is Svelte <==> tag@ == "svelte"@
        },
        r is Err <==> (tag@ != "rust"@ && tag@ != "typescript"@ && tag@ != "tsx"@ && tag@
            != "svelte"@),
        r matches Err(m) ==> m@ == unknown_language_message(tag@),
{
    proof {
        lemma_language_tags_distinct();
    }
    if str_eq(tag, "rust") {
        Ok(SupportedLanguage::Rust)
    } else if str_eq(tag, "typescript") {
        Ok(SupportedLanguage::TypeScript)
    } else if str_eq(tag, "tsx") {
        Ok(SupportedLanguage::Tsx)
    } else if str_eq(tag, "svelte") {
        Ok(SupportedLanguage::Svelte)
    } else {
        let mut out: Vec<char> = Vec::new();
        push_str_chars(&mut out, "unknown variant `");
        push_str_chars(&mut out, tag);
        push_str_chars(&mut out, "`, expected one of `rust`, `typescript`, `tsx`, `svelte`");
        Err(string_from_chars(&out))
    }
}

/// What an `install` call must do next, given whether a valid artifact is
/// already present at the target directory.
#[derive(Clone, Copy, Debug, PartialEq, Eq, Structural)]
pub enum InstallAction {
    /// No valid artifact yet: fetch and compile the grammar, publish the
    /// artifact atomically, then load it.
    CompileThenLoad,
    /// A valid artifact exists: behave exactly like `load`.
    LoadOnly,
}

/// The provisioning decision: compile only when no valid artifact is
/// present.
pub open spec fn install_plan_spec(artifact_present: bool) -> InstallAction {
    if artifact_present {
        InstallAction::LoadOnly
    } else {
        InstallAction::CompileThenLoad
    }
}

/// Decides what an `install` call does, from whether a valid artifact is
/// already present at the target directory.
pub fn install_plan(artifact_present: bool) -> (r: InstallAction)
    ensures
        r == install_plan_spec(artifact_present),
{
    if artifact_present {
        InstallAction::LoadOnly
    } else {
        InstallAction::CompileThenLoad
    }
}

/// Installing is idempotent.  The hypothesis is the atomic-publish contract
/// of provisioning: a successful `install` leaves a valid artifact at the
/// target directory, whether or not it had to compile.  Under it, a second
/// `install` with the same target directory and language plans no
/// compilation: it behaves exactly like `load`.  The second clause says when
/// a compilation is planned at all: exactly when no valid artifact is
/// present.
pub proof fn lemma_install_idempotent(artifact_present_after_first_install: bool)
    requires
        artifact_present_after_first_install,
    ensures
        install_plan_spec(artifact_present_after_first_install) is LoadOnly,
        forall|present: bool|
            install_plan_spec(present) is CompileThenLoad <==> !present,
{
}

/// The platforms whose artifact naming conventions the registry knows.
#[derive(Clone, Copy, Debug, PartialEq, Eq, Structural)]
pub enum Platform {
    Linux,
    MacOs,
    Windows,
}

/// The file name of a grammar's loadable artifact, normalized per host
/// platform: the platform's shared-library prefix and extension around the
/// grammar name.
pub open spec fn artifact_file_name_of(name: Seq<char>, platform: Platform) -> Seq<char> {
    if platform is Windows {
        name + ".dll"@
    } else if platform is MacOs {
        "lib"@ + name + ".dylib"@
    } else {
        "lib"@ + name + ".so"@
    }
}

/// Builds the artifact file name for a grammar on the given platform.
pub fn artifact_file_name(name: &str, platform: Platform) -> (r: String)
    ensures
        r@ == artifact_file_name_of(name@, platform),
{
    let mut out: Vec<char> = Vec::new();
    match platform {
        Platform::Windows => {
            push_str_chars(&mut out, name);
            push_str_chars(&mut out, ".dll");
        },
        Platform::MacOs => {
            push_str_chars(&mut out, "lib");
            push_str_chars(&mut out, name);
            push_str_chars(&mut out, ".dylib");
        },
        Platform::Linux => {
            push_str_chars(&mut out, "lib");
            push_str_chars(&mut out, name);
            push_str_chars(&mut out, ".so");
        },
    }
    string_from_chars(&out)
}

} // verus!
