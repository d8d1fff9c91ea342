//! The command line: its categories and what a set of arguments asks for.
use vstd::prelude::*;
use vstd::string::StringExecFns;

verus! {

/// A category of assets named on the command line.
#[derive(Clone, Copy, PartialEq, Eq, Structural, Debug)]
pub enum Category {
    Music,
    Sounds,
    Images,
    Ktx,
    Rbxm,
}

impl Category {
    /// The category's name as the program prints it.
    pub open spec fn spec_name(self) -> Seq<char> {
        match self {
            Category::Music => "Music"@,
            Category::Sounds => "Sounds"@,
            Category::Images => "Images"@,
            Category::Ktx => "Ktx"@,
            Category::Rbxm => "Rbxm"@,
        }
    }

    /// The category's name in lower case, which names its tab.
    pub open spec fn spec_tab(self) -> Seq<char> {
        match self {
            Category::Music => "music"@,
            Category::Sounds => "sounds"@,
            Category::Images => "images"@,
            Category::Ktx => "ktx"@,
            Category::Rbxm => "rbxm"@,
        }
    }

    /// The category's name.
    pub fn to_string(&self) -> (r: String)
        ensures
            r@ == self.spec_name(),
    {
        match self {
            Category::Music => "Music".to_owned(),
            Category::Sounds => "Sounds".to_owned(),
            Category::Images => "Images".to_owned(),
            Category::Ktx => "Ktx".to_owned(),
            Category::Rbxm => "Rbxm".to_owned(),
        }
    }

    /// The category's name in lower case.
    pub fn tab(&self) -> (r: String)
        ensures
            r@ == self.spec_tab(),
    {
        match self {
            Category::Music => "music".to_owned(),
            Category::Sounds => "sounds".to_owned(),
            Category::Images => "images".to_owned(),
            Category::Ktx => "ktx".to_owned(),
            Category::Rbxm => "rbxm".to_owned(),
        }
    }
}

/// What the program does for its arguments.
#[derive(Debug, PartialEq)]
pub enum CliAction {
    /// List the category `tab` from `directory`, printing each entry.
    List { directory: String, tab: String },
    /// List mode was asked for without a category.
    MissingCategory,
    /// Print the name of the asset to extract.
    PrintAsset(String),
    /// No mode was asked for: open the window.
    RunGui,
}

/// The message printed when list mode lacks a category.
pub open spec fn missing_category_message() -> Seq<char> {
    "Category argument required for list mode! --help for details."@
}

/// The message printed when list mode lacks a category.
pub fn missing_category_text() -> (r: String)
    ensures
        r@ == missing_category_message(),
{
    "Category argument required for list mode! --help for details.".to_owned()
}

/// The directory listed for a category: the sounds directory of the cache
/// for music, its http directory for the others.
pub open spec fn list_directory(cache_directory: Seq<char>, category: Category) -> Seq<char> {
    if category == Category::Music {
        cache_directory + "/sounds"@
    } else {
        cache_directory + "/http"@
    }
}

/// What the arguments ask for: listing comes first, then extraction, and
/// the window when neither is asked for.
pub fn cli_action(list: bool, mode: Option<Category>, extract: Option<String>, cache_directory: &str) -> (r:
    CliAction)
    ensures
        list ==> match mode {
            Some(c) => r matches CliAction::List { directory, tab } && directory@ == list_directory(
                cache_directory@,
                c,
            ) && tab@ == c.spec_tab(),
            None => r is MissingCategory,
        },
        !list ==> match extract {
            Some(asset) => r == CliAction::PrintAsset(asset),
            None => r is RunGui,
        },
{
    if list {
        match mode {
            Some(c) => {
                let tab = c.tab();
                let directory = crate::logic::list_directory_for_tab(cache_directory, &tab);
                proof {
                    reveal_strlit("music");
                    reveal_strlit("sounds");
                    reveal_strlit("images");
                    reveal_strlit("ktx");
                    reveal_strlit("rbxm");
                    assert(tab@.len() != 5 ==> tab@ != "music"@);
                    assert(c == Category::Music <==> tab@ == "music"@);
                }
                CliAction::List { directory, tab }
            },
            None => CliAction::MissingCategory,
        }
    } else {
        match extract {
            Some(asset) => CliAction::PrintAsset(asset),
            None => CliAction::RunGui,
        }
    }
}

} // verus!
