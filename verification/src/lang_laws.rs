//! Which language a file and a word name.

use vstd::prelude::*;

verus! {

/// Extensions tell their language.
pub proof fn law_extensions_tell_their_language()
    ensures
        crate::lang::lang_of(".ts"@) matches Some(m) && m.language == "typescript"@ && m.builtin == true,
        crate::lang::lang_of(".tsx"@) matches Some(m) && m.language == "typescript"@ && m.builtin == true,
        crate::lang::lang_of(".js"@) matches Some(m) && m.language == "javascript"@ && m.builtin == true,
        crate::lang::lang_of(".jsx"@) matches Some(m) && m.language == "javascript"@ && m.builtin == true,
        crate::lang::lang_of(".mjs"@) matches Some(m) && m.language == "javascript"@ && m.builtin == true,
        crate::lang::lang_of(".cjs"@) matches Some(m) && m.language == "javascript"@ && m.builtin == true,
        crate::lang::lang_of(".rs"@) matches Some(m) && m.language == "rust"@ && m.builtin == true,
        crate::lang::lang_of(".py"@) matches Some(m) && m.language == "python"@ && m.builtin == true,
        crate::lang::lang_of(".go"@) matches Some(m) && m.language == "go"@ && m.builtin == false,
        crate::lang::lang_of(".java"@) matches Some(m) && m.language == "java"@ && m.builtin == false,
        crate::lang::lang_of(".kt"@) matches Some(m) && m.language == "kotlin"@ && m.builtin == false,
        crate::lang::lang_of(".kts"@) matches Some(m) && m.language == "kotlin"@ && m.builtin == false,
        crate::lang::lang_of(".scala"@) matches Some(m) && m.language == "scala"@ && m.builtin == false,
        crate::lang::lang_of(".sbt"@) matches Some(m) && m.language == "scala"@ && m.builtin == false,
        crate::lang::lang_of(".rb"@) matches Some(m) && m.language == "ruby"@ && m.builtin == false,
        crate::lang::lang_of(".php"@) matches Some(m) && m.language == "php"@ && m.builtin == false,
        crate::lang::lang_of(".cs"@) matches Some(m) && m.language == "csharp"@ && m.builtin == false,
        crate::lang::lang_of(".csx"@) matches Some(m) && m.language == "csharp"@ && m.builtin == false,
        crate::lang::lang_of(".cpp"@) matches Some(m) && m.language == "cpp"@ && m.builtin == false,
        crate::lang::lang_of(".cc"@) matches Some(m) && m.language == "cpp"@ && m.builtin == false,
        crate::lang::lang_of(".cxx"@) matches Some(m) && m.language == "cpp"@ && m.builtin == false,
        crate::lang::lang_of(".hpp"@) matches Some(m) && m.language == "cpp"@ && m.builtin == false,
        crate::lang::lang_of(".c"@) matches Some(m) && m.language == "c"@ && m.builtin == false,
        crate::lang::lang_of(".h"@) matches Some(m) && m.language == "c"@ && m.builtin == false,
        crate::lang::lang_of(".swift"@) matches Some(m) && m.language == "swift"@ && m.builtin == false,
        crate::lang::lang_of(".dart"@) matches Some(m) && m.language == "dart"@ && m.builtin == false,
{
    reveal_strlit(".ts");
    reveal_strlit(".tsx");
    reveal_strlit(".js");
    reveal_strlit(".jsx");
    reveal_strlit(".mjs");
    reveal_strlit(".cjs");
    reveal_strlit(".rs");
    reveal_strlit(".py");
    reveal_strlit(".go");
    reveal_strlit(".java");
    reveal_strlit(".kt");
    reveal_strlit(".kts");
    reveal_strlit(".scala");
    reveal_strlit(".sbt");
    reveal_strlit(".rb");
    reveal_strlit(".php");
    reveal_strlit(".cs");
    reveal_strlit(".csx");
    reveal_strlit(".cpp");
    reveal_strlit(".cc");
    reveal_strlit(".cxx");
    reveal_strlit(".hpp");
    reveal_strlit(".c");
    reveal_strlit(".h");
    reveal_strlit(".swift");
    reveal_strlit(".dart");
    assert(".ts"@.len() == 3);
    assert(".tsx"@.len() == 4);
    assert(".js"@.len() == 3);
    assert(".jsx"@.len() == 4);
    assert(".mjs"@.len() == 4);
    assert(".cjs"@.len() == 4);
    assert(".rs"@.len() == 3);
    assert(".py"@.len() == 3);
    assert(".go"@.len() == 3);
    assert(".java"@.len() == 5);
    assert(".kt"@.len() == 3);
    assert(".kts"@.len() == 4);
    assert(".scala"@.len() == 6);
    assert(".sbt"@.len() == 4);
    assert(".rb"@.len() == 3);
    assert(".php"@.len() == 4);
    assert(".cs"@.len() == 3);
    assert(".csx"@.len() == 4);
    assert(".cpp"@.len() == 4);
    assert(".cc"@.len() == 3);
    assert(".cxx"@.len() == 4);
    assert(".hpp"@.len() == 4);
    assert(".c"@.len() == 2);
    assert(".h"@.len() == 2);
    assert(".swift"@.len() == 6);
    assert(".dart"@.len() == 5);
    assert(".ts"@[1] != ".js"@[1]);
    assert(".tsx"@[1] != ".jsx"@[1]);
    assert(".tsx"@[1] != ".mjs"@[1]);
    assert(".jsx"@[1] != ".mjs"@[1]);
    assert(".tsx"@[1] != ".cjs"@[1]);
    assert(".jsx"@[1] != ".cjs"@[1]);
    assert(".mjs"@[1] != ".cjs"@[1]);
    assert(".ts"@[1] != ".rs"@[1]);
    assert(".js"@[1] != ".rs"@[1]);
    assert(".ts"@[1] != ".py"@[1]);
    assert(".js"@[1] != ".py"@[1]);
    assert(".rs"@[1] != ".py"@[1]);
    assert(".ts"@[1] != ".go"@[1]);
    assert(".js"@[1] != ".go"@[1]);
    assert(".rs"@[1] != ".go"@[1]);
    assert(".py"@[1] != ".go"@[1]);
    assert(".ts"@[1] != ".kt"@[1]);
    assert(".js"@[1] != ".kt"@[1]);
    assert(".rs"@[1] != ".kt"@[1]);
    assert(".py"@[1] != ".kt"@[1]);
    assert(".go"@[1] != ".kt"@[1]);
    assert(".tsx"@[1] != ".kts"@[1]);
    assert(".jsx"@[1] != ".kts"@[1]);
    assert(".mjs"@[1] != ".kts"@[1]);
    assert(".cjs"@[1] != ".kts"@[1]);
    assert(".tsx"@[1] != ".sbt"@[1]);
    assert(".jsx"@[1] != ".sbt"@[1]);
    assert(".mjs"@[1] != ".sbt"@[1]);
    assert(".cjs"@[1] != ".sbt"@[1]);
    assert(".kts"@[1] != ".sbt"@[1]);
    assert(".ts"@[1] != ".rb"@[1]);
    assert(".js"@[1] != ".rb"@[1]);
    assert(".rs"@[2] != ".rb"@[2]);
    assert(".py"@[1] != ".rb"@[1]);
    assert(".go"@[1] != ".rb"@[1]);
    assert(".kt"@[1] != ".rb"@[1]);
    assert(".tsx"@[1] != ".php"@[1]);
    assert(".jsx"@[1] != ".php"@[1]);
    assert(".mjs"@[1] != ".php"@[1]);
    assert(".cjs"@[1] != ".php"@[1]);
    assert(".kts"@[1] != ".php"@[1]);
    assert(".sbt"@[1] != ".php"@[1]);
    assert(".ts"@[1] != ".cs"@[1]);
    assert(".js"@[1] != ".cs"@[1]);
    assert(".rs"@[1] != ".cs"@[1]);
    assert(".py"@[1] != ".cs"@[1]);
    assert(".go"@[1] != ".cs"@[1]);
    assert(".kt"@[1] != ".cs"@[1]);
    assert(".rb"@[1] != ".cs"@[1]);
    assert(".tsx"@[1] != ".csx"@[1]);
    assert(".jsx"@[1] != ".csx"@[1]);
    assert(".mjs"@[1] != ".csx"@[1]);
    assert(".cjs"@[2] != ".csx"@[2]);
    assert(".kts"@[1] != ".csx"@[1]);
    assert(".sbt"@[1] != ".csx"@[1]);
    assert(".php"@[1] != ".csx"@[1]);
    assert(".tsx"@[1] != ".cpp"@[1]);
    assert(".jsx"@[1] != ".cpp"@[1]);
    assert(".mjs"@[1] != ".cpp"@[1]);
    assert(".cjs"@[2] != ".cpp"@[2]);
    assert(".kts"@[1] != ".cpp"@[1]);
    assert(".sbt"@[1] != ".cpp"@[1]);
    assert(".php"@[1] != ".cpp"@[1]);
    assert(".csx"@[2] != ".cpp"@[2]);
    assert(".ts"@[1] != ".cc"@[1]);
    assert(".js"@[1] != ".cc"@[1]);
    assert(".rs"@[1] != ".cc"@[1]);
    assert(".py"@[1] != ".cc"@[1]);
    assert(".go"@[1] != ".cc"@[1]);
    assert(".kt"@[1] != ".cc"@[1]);
    assert(".rb"@[1] != ".cc"@[1]);
    assert(".cs"@[2] != ".cc"@[2]);
    assert(".tsx"@[1] != ".cxx"@[1]);
    assert(".jsx"@[1] != ".cxx"@[1]);
    assert(".mjs"@[1] != ".cxx"@[1]);
    assert(".cjs"@[2] != ".cxx"@[2]);
    assert(".kts"@[1] != ".cxx"@[1]);
    assert(".sbt"@[1] != ".cxx"@[1]);
    assert(".php"@[1] != ".cxx"@[1]);
    assert(".csx"@[2] != ".cxx"@[2]);
    assert(".cpp"@[2] != ".cxx"@[2]);
    assert(".tsx"@[1] != ".hpp"@[1]);
    assert(".jsx"@[1] != ".hpp"@[1]);
    assert(".mjs"@[1] != ".hpp"@[1]);
    assert(".cjs"@[1] != ".hpp"@[1]);
    assert(".kts"@[1] != ".hpp"@[1]);
    assert(".sbt"@[1] != ".hpp"@[1]);
    assert(".php"@[1] != ".hpp"@[1]);
    assert(".csx"@[1] != ".hpp"@[1]);
    assert(".cpp"@[1] != ".hpp"@[1]);
    assert(".cxx"@[1] != ".hpp"@[1]);
    assert(".c"@[1] != ".h"@[1]);
    assert(".scala"@[2] != ".swift"@[2]);
    assert(".java"@[1] != ".dart"@[1]);
}

/// Words tell the language that they name.
pub proof fn law_words_tell_their_language()
    ensures
        crate::search::lang_token("typescript"@) == Some("typescript"@),
        crate::search::lang_token("javascript"@) == Some("javascript"@),
        crate::search::lang_token("objective-c"@) == Some("objectivec"@),
        crate::search::lang_token("objectivec"@) == Some("objectivec"@),
        crate::search::lang_token("csharp"@) == Some("csharp"@),
        crate::search::lang_token("golang"@) == Some("go"@),
        crate::search::lang_token("kotlin"@) == Some("kotlin"@),
        crate::search::lang_token("python"@) == Some("python"@),
        crate::search::lang_token("scala"@) == Some("scala"@),
        crate::search::lang_token("swift"@) == Some("swift"@),
        crate::search::lang_token("objc"@) == Some("objectivec"@),
        crate::search::lang_token("dart"@) == Some("dart"@),
        crate::search::lang_token("java"@) == Some("java"@),
        crate::search::lang_token("ruby"@) == Some("ruby"@),
        crate::search::lang_token("rust"@) == Some("rust"@),
        crate::search::lang_token("cpp"@) == Some("cpp"@),
        crate::search::lang_token("php"@) == Some("php"@),
        crate::search::lang_token("c++"@) == Some("cpp"@),
        crate::search::lang_token("c#"@) == Some("csharp"@),
        crate::search::lang_token("go"@) == Some("go"@),
        crate::search::lang_token("c"@) == Some("c"@),
{
    reveal_strlit("typescript");
    reveal_strlit("javascript");
    reveal_strlit("objective-c");
    reveal_strlit("objectivec");
    reveal_strlit("csharp");
    reveal_strlit("golang");
    reveal_strlit("kotlin");
    reveal_strlit("python");
    reveal_strlit("scala");
    reveal_strlit("swift");
    reveal_strlit("objc");
    reveal_strlit("dart");
    reveal_strlit("java");
    reveal_strlit("ruby");
    reveal_strlit("rust");
    reveal_strlit("cpp");
    reveal_strlit("php");
    reveal_strlit("c++");
    reveal_strlit("c#");
    reveal_strlit("go");
    reveal_strlit("c");
    assert("typescript"@.len() == 10);
    assert("javascript"@.len() == 10);
    assert("objective-c"@.len() == 11);
    assert("objectivec"@.len() == 10);
    assert("csharp"@.len() == 6);
    assert("golang"@.len() == 6);
    assert("kotlin"@.len() == 6);
    assert("python"@.len() == 6);
    assert("scala"@.len() == 5);
    assert("swift"@.len() == 5);
    assert("objc"@.len() == 4);
    assert("dart"@.len() == 4);
    assert("java"@.len() == 4);
    assert("ruby"@.len() == 4);
    assert("rust"@.len() == 4);
    assert("cpp"@.len() == 3);
    assert("php"@.len() == 3);
    assert("c++"@.len() == 3);
    assert("c#"@.len() == 2);
    assert("go"@.len() == 2);
    assert("c"@.len() == 1);
    assert("typescript"@[0] != "javascript"@[0]);
    assert("typescript"@[0] != "objectivec"@[0]);
    assert("javascript"@[0] != "objectivec"@[0]);
    assert("csharp"@[0] != "golang"@[0]);
    assert("csharp"@[0] != "kotlin"@[0]);
    assert("golang"@[0] != "kotlin"@[0]);
    assert("csharp"@[0] != "python"@[0]);
    assert("golang"@[0] != "python"@[0]);
    assert("kotlin"@[0] != "python"@[0]);
    assert("scala"@[1] != "swift"@[1]);
    assert("objc"@[0] != "dart"@[0]);
    assert("objc"@[0] != "java"@[0]);
    assert("dart"@[0] != "java"@[0]);
    assert("objc"@[0] != "ruby"@[0]);
    assert("dart"@[0] != "ruby"@[0]);
    assert("java"@[0] != "ruby"@[0]);
    assert("objc"@[0] != "rust"@[0]);
    assert("dart"@[0] != "rust"@[0]);
    assert("java"@[0] != "rust"@[0]);
    assert("ruby"@[2] != "rust"@[2]);
    assert("cpp"@[0] != "php"@[0]);
    assert("cpp"@[1] != "c++"@[1]);
    assert("php"@[0] != "c++"@[0]);
    assert("c#"@[0] != "go"@[0]);
}

} // verus!
