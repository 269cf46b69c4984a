use crate::platform::{newline, newline_os, Platform};
use crate::text::push_char;
use vstd::prelude::*;
use vstd::string::*;

verus! {

/// Holds a name and a description
#[derive(Debug, Clone, PartialEq, Eq)]
pub struct HelpItem {
    pub name: String,
    pub description: String,
}

/// The line of the usage summary for one name and its description: the two
/// with a tab between them, ended by the platform's newline.
pub open spec fn help_line(name: Seq<char>, description: Seq<char>, platform: Platform) -> Seq<
    char,
> {
    name + seq!['\t'] + description + newline(platform)
}

/// The lines of the usage summary for the commands.
pub open spec fn commands_help(platform: Platform) -> Seq<char> {
    help_line("add"@, "Adds an item"@, platform) + help_line("rm"@, "Removes an item"@, platform)
        + help_line("complete"@, "Completes an item"@, platform) + help_line(
        "list"@,
        "Lists todo"@,
        platform,
    ) + help_line("help"@, "Prints help"@, platform)
}

/// The lines of the usage summary for the options.
pub open spec fn options_help(platform: Platform) -> Seq<char> {
    help_line("-a"@, "Prints everything including completed items"@, platform)
}

/// The usage summary.
pub open spec fn help_text(platform: Platform) -> Seq<char> {
    "USAGE: todo [COMMAND] [ID]"@ + newline(platform) + "\n"@ + "COMMANDS:\n"@ + commands_help(
        platform,
    ) + "\n"@ + "OPTIONS:\n"@ + options_help(platform) + "\n"@
}

impl HelpItem {
    /// Creates a new [HelpItem]
    pub fn new(name: &str, description: &str) -> (item: Self)
        ensures
            item.name@ == name@,
            item.description@ == description@,
    {
        HelpItem { name: name.to_owned(), description: description.to_owned() }
    }

    /// The [HelpItem] name and description with a trailing newline
    pub fn as_string(&self, platform: Platform) -> (full_string: String)
        ensures
            full_string@ == help_line(self.name@, self.description@, platform),
    {
        let mut full_string = String::new();
        full_string.append(self.name.as_str());
        push_char(&mut full_string, '\t');
        full_string.append(self.description.as_str());
        full_string.append(newline_os(platform));
        assert(full_string@ =~= help_line(self.name@, self.description@, platform));
        full_string
    }
}

/// The usage summary of commands and options.
pub fn print_help(platform: Platform) -> (text: String)
    ensures
        text@ == help_text(platform),
{
    let mut commands_string = String::new();
    commands_string.append(HelpItem::new("add", "Adds an item").as_string(platform).as_str());
    commands_string.append(HelpItem::new("rm", "Removes an item").as_string(platform).as_str());
    commands_string.append(
        HelpItem::new("complete", "Completes an item").as_string(platform).as_str(),
    );
    commands_string.append(HelpItem::new("list", "Lists todo").as_string(platform).as_str());
    commands_string.append(HelpItem::new("help", "Prints help").as_string(platform).as_str());
    assert(commands_string@ =~= commands_help(platform));
    let options_string = HelpItem::new(
        "-a",
        "Prints everything including completed items",
    ).as_string(platform);
    let mut text = String::new();
    text.append("USAGE: todo [COMMAND] [ID]");
    text.append(newline_os(platform));
    text.append("\n");
    text.append("COMMANDS:\n");
    text.append(commands_string.as_str());
    text.append("\n");
    text.append("OPTIONS:\n");
    text.append(options_string.as_str());
    text.append("\n");
    assert(text@ =~= help_text(platform));
    text
}

} // verus!
