//! Which files get syntax highlighting.
use vstd::prelude::*;

verus! {

/// The file extensions that have a syntax definition.
pub open spec fn supported_extensions() -> Seq<Seq<char>> {
    seq![
        "rs"@, "py"@, "js"@, "jsx"@, "ts"@, "tsx"@, "mjs"@, "cjs"@, "html"@, "htm"@, "css"@,
        "scss"@, "sass"@, "less"@, "json"@, "toml"@, "yaml"@, "yml"@, "xml"@, "sh"@, "bash"@,
        "zsh"@, "fish"@, "go"@, "c"@, "h"@, "cpp"@, "hpp"@, "cc"@, "hh"@, "java"@, "kt"@,
        "kts"@, "rb"@, "erb"@, "php"@, "lua"@, "sql"@, "md"@, "markdown"@, "makefile"@, "mk"@,
        "dockerfile"@, "vim"@, "diff"@, "patch"@,
    ]
}

fn ext_list() -> (r: Vec<String>)
    ensures
        r@.map_values(|s: String| s@) == supported_extensions(),
{
    let names: [&str; 46] = [
        "rs", "py", "js", "jsx", "ts", "tsx", "mjs", "cjs", "html", "htm", "css", "scss", "sass",
        "less", "json", "toml", "yaml", "yml", "xml", "sh", "bash", "zsh", "fish", "go", "c", "h",
        "cpp", "hpp", "cc", "hh", "java", "kt", "kts", "rb", "erb", "php", "lua", "sql", "md",
        "markdown", "makefile", "mk", "dockerfile", "vim", "diff", "patch",
    ];
    let mut r: Vec<String> = Vec::new();
    let mut i: usize = 0;
    while i < 46
        invariant
            i <= 46,
            names@.map_values(|s: &str| s@) == supported_extensions(),
            r@.map_values(|s: String| s@) == names@.map_values(|s: &str| s@).take(i as int),
        decreases 46 - i,
    {
        let s = names[i].to_owned();
        let ghost before = r@;
        r.push(s);
        assert(r@.map_values(|s: String| s@) == before.map_values(|s: String| s@).push(s@));
        assert(names@.map_values(|s: &str| s@).take(i + 1) == names@.map_values(|s: &str| s@).take(
            i as int,
        ).push(names@[i as int]@));
        i = i + 1;
    }
    assert(names@.map_values(|s: &str| s@).take(46) == names@.map_values(|s: &str| s@));
    r
}

/// Whether files with extension `ext` (lower case, without the dot) are
/// highlighted.
pub fn is_supported_extension(ext: &str) -> (r: bool)
    ensures
        r == supported_extensions().contains(ext@),
{
    let list = ext_list();
    let target = ext.to_owned();
    let mut i: usize = 0;
    while i < list.len()
        invariant
            i <= list.len(),
            list@.map_values(|s: String| s@) == supported_extensions(),
            target@ == ext@,
            forall|j: int| 0 <= j < i ==> supported_extensions()[j] != ext@,
        decreases list.len() - i,
    {
        assert(supported_extensions()[i as int] == list@[i as int]@);
        if list[i] == target {
            return true;
        }
        i = i + 1;
    }
    false
}

} // verus!
