//! The static table from file extension to language label.

use vstd::prelude::*;
use crate::text::str_eq;

verus! {

/// The language label of a lowercase extension (without its dot);
/// an extension outside the table is `"Unknown"`.
pub open spec fn language_of(e: Seq<char>) -> Seq<char> {
    if e == "js"@ {
        "JavaScript"@
    } else
    if e == "jsx"@ {
        "JavaScript (JSX)"@
    } else
    if e == "ts"@ {
        "TypeScript"@
    } else
    if e == "tsx"@ {
        "TypeScript (TSX)"@
    } else
    if e == "vue"@ {
        "Vue"@
    } else
    if e == "svelte"@ {
        "Svelte"@
    } else
    if e == "java"@ {
        "Java"@
    } else
    if e == "py"@ {
        "Python"@
    } else
    if e == "c"@ {
        "C"@
    } else
    if e == "h"@ {
        "C/C++ Header"@
    } else
    if e == "cpp"@ || e == "cc"@ || e == "cxx"@ {
        "C++"@
    } else
    if e == "hpp"@ {
        "C++ Header"@
    } else
    if e == "cs"@ {
        "C#"@
    } else
    if e == "go"@ {
        "Go"@
    } else
    if e == "rs"@ {
        "Rust"@
    } else
    if e == "rb"@ {
        "Ruby"@
    } else
    if e == "php"@ {
        "PHP"@
    } else
    if e == "swift"@ {
        "Swift"@
    } else
    if e == "kt"@ || e == "kts"@ {
        "Kotlin"@
    } else
    if e == "scala"@ {
        "Scala"@
    } else
    if e == "dart"@ {
        "Dart"@
    } else
    if e == "lua"@ {
        "Lua"@
    } else
    if e == "r"@ || e == "R"@ {
        "R"@
    } else
    if e == "m"@ {
        "Objective-C"@
    } else
    if e == "mm"@ {
        "Objective-C++"@
    } else
    if e == "pl"@ || e == "pm"@ {
        "Perl"@
    } else
    if e == "sh"@ || e == "bash"@ || e == "zsh"@ {
        "Shell"@
    } else
    if e == "bat"@ || e == "cmd"@ {
        "Batch"@
    } else
    if e == "ps1"@ {
        "PowerShell"@
    } else
    if e == "sql"@ {
        "SQL"@
    } else
    if e == "html"@ || e == "htm"@ {
        "HTML"@
    } else
    if e == "css"@ {
        "CSS"@
    } else
    if e == "scss"@ {
        "SCSS"@
    } else
    if e == "sass"@ {
        "Sass"@
    } else
    if e == "less"@ {
        "Less"@
    } else
    if e == "xml"@ {
        "XML"@
    } else
    if e == "json"@ {
        "JSON"@
    } else
    if e == "yaml"@ || e == "yml"@ {
        "YAML"@
    } else
    if e == "toml"@ {
        "TOML"@
    } else
    if e == "md"@ {
        "Markdown"@
    } else
    if e == "txt"@ {
        "Text"@
    } else
    if e == "gradle"@ || e == "groovy"@ {
        "Groovy"@
    } else
    if e == "ex"@ || e == "exs"@ {
        "Elixir"@
    } else
    if e == "erl"@ || e == "hrl"@ {
        "Erlang"@
    } else
    if e == "hs"@ {
        "Haskell"@
    } else
    if e == "ml"@ {
        "OCaml"@
    } else
    if e == "fs"@ || e == "fsx"@ {
        "F#"@
    } else
    if e == "clj"@ || e == "cljs"@ {
        "Clojure"@
    } else
    if e == "proto"@ {
        "Protocol Buffers"@
    } else
    if e == "graphql"@ || e == "gql"@ {
        "GraphQL"@
    } else
    if e == "tf"@ {
        "Terraform"@
    } else
    if e == "wxss"@ {
        "WXSS"@
    } else
    if e == "wxml"@ {
        "WXML"@
    } else
    if e == "wxs"@ {
        "WXS"@
    } else
    if e == "prisma"@ {
        "Prisma"@
    } else
    if e == "astro"@ {
        "Astro"@
    } else {
        "Unknown"@
    }
}

/// The language label of a lowercase extension given without its dot.
pub fn ext_to_language(ext: &str) -> (r: &'static str)
    ensures
        r@ == language_of(ext@),
{
    if str_eq(ext, "js") {
        return "JavaScript";
    }
    if str_eq(ext, "jsx") {
        return "JavaScript (JSX)";
    }
    if str_eq(ext, "ts") {
        return "TypeScript";
    }
    if str_eq(ext, "tsx") {
        return "TypeScript (TSX)";
    }
    if str_eq(ext, "vue") {
        return "Vue";
    }
    if str_eq(ext, "svelte") {
        return "Svelte";
    }
    if str_eq(ext, "java") {
        return "Java";
    }
    if str_eq(ext, "py") {
        return "Python";
    }
    if str_eq(ext, "c") {
        return "C";
    }
    if str_eq(ext, "h") {
        return "C/C++ Header";
    }
    if str_eq(ext, "cpp") || str_eq(ext, "cc") || str_eq(ext, "cxx") {
        return "C++";
    }
    if str_eq(ext, "hpp") {
        return "C++ Header";
    }
    if str_eq(ext, "cs") {
        return "C#";
    }
    if str_eq(ext, "go") {
        return "Go";
    }
    if str_eq(ext, "rs") {
        return "Rust";
    }
    if str_eq(ext, "rb") {
        return "Ruby";
    }
    if str_eq(ext, "php") {
        return "PHP";
    }
    if str_eq(ext, "swift") {
        return "Swift";
    }
    if str_eq(ext, "kt") || str_eq(ext, "kts") {
        return "Kotlin";
    }
    if str_eq(ext, "scala") {
        return "Scala";
    }
    if str_eq(ext, "dart") {
        return "Dart";
    }
    if str_eq(ext, "lua") {
        return "Lua";
    }
    if str_eq(ext, "r") || str_eq(ext, "R") {
        return "R";
    }
    if str_eq(ext, "m") {
        return "Objective-C";
    }
    if str_eq(ext, "mm") {
        return "Objective-C++";
    }
    if str_eq(ext, "pl") || str_eq(ext, "pm") {
        return "Perl";
    }
    if str_eq(ext, "sh") || str_eq(ext, "bash") || str_eq(ext, "zsh") {
        return "Shell";
    }
    if str_eq(ext, "bat") || str_eq(ext, "cmd") {
        return "Batch";
    }
    if str_eq(ext, "ps1") {
        return "PowerShell";
    }
    if str_eq(ext, "sql") {
        return "SQL";
    }
    if str_eq(ext, "html") || str_eq(ext, "htm") {
        return "HTML";
    }
    if str_eq(ext, "css") {
        return "CSS";
    }
    if str_eq(ext, "scss") {
        return "SCSS";
    }
    if str_eq(ext, "sass") {
        return "Sass";
    }
    if str_eq(ext, "less") {
        return "Less";
    }
    if str_eq(ext, "xml") {
        return "XML";
    }
    if str_eq(ext, "json") {
        return "JSON";
    }
    if str_eq(ext, "yaml") || str_eq(ext, "yml") {
        return "YAML";
    }
    if str_eq(ext, "toml") {
        return "TOML";
    }
    if str_eq(ext, "md") {
        return "Markdown";
    }
    if str_eq(ext, "txt") {
        return "Text";
    }
    if str_eq(ext, "gradle") || str_eq(ext, "groovy") {
        return "Groovy";
    }
    if str_eq(ext, "ex") || str_eq(ext, "exs") {
        return "Elixir";
    }
    if str_eq(ext, "erl") || str_eq(ext, "hrl") {
        return "Erlang";
    }
    if str_eq(ext, "hs") {
        return "Haskell";
    }
    if str_eq(ext, "ml") {
        return "OCaml";
    }
    if str_eq(ext, "fs") || str_eq(ext, "fsx") {
        return "F#";
    }
    if str_eq(ext, "clj") || str_eq(ext, "cljs") {
        return "Clojure";
    }
    if str_eq(ext, "proto") {
        return "Protocol Buffers";
    }
    if str_eq(ext, "graphql") || str_eq(ext, "gql") {
        return "GraphQL";
    }
    if str_eq(ext, "tf") {
        return "Terraform";
    }
    if str_eq(ext, "wxss") {
        return "WXSS";
    }
    if str_eq(ext, "wxml") {
        return "WXML";
    }
    if str_eq(ext, "wxs") {
        return "WXS";
    }
    if str_eq(ext, "prisma") {
        return "Prisma";
    }
    if str_eq(ext, "astro") {
        return "Astro";
    }
    "Unknown"
}

/// The empty extension is not in the table.
pub proof fn lemma_empty_is_unknown(e: Seq<char>)
    requires
        e.len() == 0,
    ensures
        language_of(e) == "Unknown"@,
{
    assert(language_of(e) == "Unknown"@) by {
        reveal_strlit("R");
        reveal_strlit("astro");
        reveal_strlit("bash");
        reveal_strlit("bat");
        reveal_strlit("c");
        reveal_strlit("cc");
        reveal_strlit("clj");
        reveal_strlit("cljs");
        reveal_strlit("cmd");
        reveal_strlit("cpp");
        reveal_strlit("cs");
        reveal_strlit("css");
        reveal_strlit("cxx");
        reveal_strlit("dart");
        reveal_strlit("erl");
        reveal_strlit("ex");
        reveal_strlit("exs");
        reveal_strlit("fs");
        reveal_strlit("fsx");
        reveal_strlit("go");
        reveal_strlit("gql");
        reveal_strlit("gradle");
        reveal_strlit("graphql");
        reveal_strlit("groovy");
        reveal_strlit("h");
        reveal_strlit("hpp");
        reveal_strlit("hrl");
        reveal_strlit("hs");
        reveal_strlit("htm");
        reveal_strlit("html");
        reveal_strlit("java");
        reveal_strlit("js");
        reveal_strlit("json");
        reveal_strlit("jsx");
        reveal_strlit("kt");
        reveal_strlit("kts");
        reveal_strlit("less");
        reveal_strlit("lua");
        reveal_strlit("m");
        reveal_strlit("md");
        reveal_strlit("ml");
        reveal_strlit("mm");
        reveal_strlit("php");
        reveal_strlit("pl");
        reveal_strlit("pm");
        reveal_strlit("prisma");
        reveal_strlit("proto");
        reveal_strlit("ps1");
        reveal_strlit("py");
        reveal_strlit("r");
        reveal_strlit("rb");
        reveal_strlit("rs");
        reveal_strlit("sass");
        reveal_strlit("scala");
        reveal_strlit("scss");
        reveal_strlit("sh");
        reveal_strlit("sql");
        reveal_strlit("svelte");
        reveal_strlit("swift");
        reveal_strlit("tf");
        reveal_strlit("toml");
        reveal_strlit("ts");
        reveal_strlit("tsx");
        reveal_strlit("txt");
        reveal_strlit("vue");
        reveal_strlit("wxml");
        reveal_strlit("wxs");
        reveal_strlit("wxss");
        reveal_strlit("xml");
        reveal_strlit("yaml");
        reveal_strlit("yml");
        reveal_strlit("zsh");
    }
}

} // verus!
