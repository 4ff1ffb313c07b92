//! The scripts that run once a scan is over: reading the head of a
//! script, choosing among the scripts, and writing the command that runs
//! one.

use vstd::prelude::*;
use vstd::string::{StrSliceExecFns, StringExecFns};
use std::collections::HashMap;
use text_placeholder::Template;
use crate::config::base::{ScriptConfig, ScriptFile};
use crate::net::ip::IpAddress;
use crate::support::text::{
    contains, has_substring, join, join_ports, joined, ports_text, text_views, trim, trimmed,
    without, without_char,
};

verus! {

/// The mark that begins each line of the head of a script.
pub const HEAD_MARK: char = '#';

/// The placeholder that stands for the path of the script.
pub const SCRIPT_PLACEHOLDER: &'static str = "{{script}}";

/// What stands between the ports where a script names nothing else.
pub const DEFAULT_SEPARATOR: &'static str = ",";

/// Whether a line belongs to the head of a script: it begins with the
/// mark.
pub open spec fn is_head_line(line: Seq<char>) -> bool {
    line.len() > 0 && line[0] == HEAD_MARK
}

/// What a line of the head says: the line without any mark and without the
/// white space at its ends, and a line feed.
pub open spec fn head_line(line: Seq<char>) -> Seq<char> {
    trimmed(without(line, HEAD_MARK)) + seq!['\n']
}

/// What the lines say up to the first that does not belong to the head.
pub open spec fn head_lines(lines: Seq<String>) -> Seq<char>
    decreases lines.len(),
{
    if lines.len() == 0 || !is_head_line(lines[0]@) {
        Seq::empty()
    } else {
        head_line(lines[0]@) + head_lines(lines.drop_first())
    }
}

/// The head of a script, given its lines: what the lines after the first
/// say, up to the first that does not begin with the mark.
pub open spec fn script_head(lines: Seq<String>) -> Seq<char> {
    if lines.len() == 0 {
        Seq::empty()
    } else {
        head_lines(lines.drop_first())
    }
}

/// Reads the head of a script from its lines. The first line is passed
/// over; each line after it that begins with the mark gives a line of the
/// head, and the first line that does not ends the head.
pub fn script_header(lines: &Vec<String>) -> (head: String)
    ensures
        head@ == script_head(lines@),
{
    let mut head = String::from_str("");
    proof {
        reveal_strlit("");
        reveal_strlit("\n");
    }
    if lines.len() == 0 {
        return head;
    }
    let mut i: usize = 1;
    let mut ended: bool = false;
    assert(lines@.skip(1) =~= lines@.drop_first());
    while i < lines.len() && !ended
        invariant
            1 <= i <= lines@.len(),
            "\n"@ == seq!['\n'],
            !ended ==> head@ + head_lines(lines@.skip(i as int)) == script_head(lines@),
            ended ==> head@ == script_head(lines@),
        decreases lines@.len() - i + (if ended {
            0int
        } else {
            1int
        }),
    {
        let line = lines[i].as_str();
        let ghost rest = lines@.skip(i as int);
        assert(rest[0] == lines@[i as int]);
        assert(rest.drop_first() =~= lines@.skip(i + 1));
        if line.unicode_len() > 0 && line.get_char(0) == HEAD_MARK {
            let bare = without_char(line, HEAD_MARK);
            let said = trim(bare.as_str());
            let ghost before = head@;
            head.append(said);
            head.append("\n");
            assert(head@ =~= before + head_line(line@));
            assert(before + (head_line(line@) + head_lines(rest.drop_first())) =~= head@
                + head_lines(rest.drop_first()));
            i += 1;
        } else {
            assert(head_lines(rest) =~= Seq::<char>::empty());
            assert(head@ + head_lines(rest) =~= head@);
            ended = true;
        }
    }
    proof {
        if !ended {
            assert(lines@.skip(i as int) =~= Seq::<String>::empty());
            assert(head@ + head_lines(lines@.skip(i as int)) =~= head@);
        }
    }
    head
}

/// Whether each of `tags` is among `allowed`.
pub open spec fn tags_allowed(tags: Seq<String>, allowed: Seq<String>) -> bool {
    forall|i: int| 0 <= i < tags.len() ==> text_views(allowed).contains(#[trigger] tags[i]@)
}

/// Whether a script is chosen by the tags that the settings allow: it has
/// tags, and each of them is allowed.
pub open spec fn is_chosen(script: ScriptFile, allowed: Seq<String>) -> bool {
    script.tags.is_some() && tags_allowed(script.tags.unwrap()@, allowed)
}

/// The scripts that the settings choose, in their order: none where the
/// settings name no tags, else each script whose tags are all allowed.
pub open spec fn chosen_scripts(scripts: Seq<ScriptFile>, config: ScriptConfig) -> Seq<ScriptFile> {
    match config.tags {
        Some(allowed) => scripts.filter(|script: ScriptFile| is_chosen(script, allowed@)),
        None => Seq::empty(),
    }
}

/// Whether `tag` is among `allowed`.
pub fn has_tag(allowed: &Vec<String>, tag: &String) -> (found: bool)
    ensures
        found == text_views(allowed@).contains(tag@),
{
    let mut i: usize = 0;
    while i < allowed.len()
        invariant
            0 <= i <= allowed@.len(),
            forall|j: int| 0 <= j < i ==> text_views(allowed@)[j] != tag@,
        decreases allowed@.len() - i,
    {
        if allowed[i] == *tag {
            assert(text_views(allowed@)[i as int] == tag@);
            return true;
        }
        i += 1;
    }
    false
}

/// Whether the settings choose a script.
pub fn chooses(allowed: &Vec<String>, script: &ScriptFile) -> (chosen: bool)
    ensures
        chosen == is_chosen(*script, allowed@),
{
    match &script.tags {
        None => false,
        Some(tags) => {
            let mut i: usize = 0;
            while i < tags.len()
                invariant
                    0 <= i <= tags@.len(),
                    script.tags == Some(*tags),
                    forall|j: int|
                        0 <= j < i ==> text_views(allowed@).contains(#[trigger] tags@[j]@),
                decreases tags@.len() - i,
            {
                if !has_tag(allowed, &tags[i]) {
                    assert(!text_views(allowed@).contains(tags@[i as int]@));
                    return false;
                }
                i += 1;
            }
            true
        },
    }
}

/// The scripts to run among those that were found: those whose tags are
/// all among the tags that the settings allow, in the order in which they
/// were found.
pub fn select_scripts(scripts: Vec<ScriptFile>, config: &ScriptConfig) -> (selected: Vec<ScriptFile>)
    ensures
        selected@ == chosen_scripts(scripts@, *config),
{
    let mut selected: Vec<ScriptFile> = Vec::new();
    match &config.tags {
        None => {},
        Some(allowed) => {
            let ghost keep = |script: ScriptFile| is_chosen(script, allowed@);
            let mut rest = scripts;
            let ghost mut taken: int = 0;
            proof {
                reveal(Seq::filter);
                assert(scripts@.take(0).filter(keep) =~= Seq::<ScriptFile>::empty());
                assert(scripts@.skip(0) =~= scripts@);
            }
            while rest.len() > 0
                invariant
                    0 <= taken <= scripts@.len(),
                    config.tags == Some(*allowed),
                    keep == |script: ScriptFile| is_chosen(script, allowed@),
                    rest@ == scripts@.skip(taken),
                    selected@ == scripts@.take(taken).filter(keep),
                decreases rest@.len(),
            {
                let script = rest.remove(0);
                proof {
                    reveal(Seq::filter);
                    assert(script == scripts@[taken]);
                    assert(scripts@.take(taken + 1).drop_last() =~= scripts@.take(taken));
                    assert(scripts@.take(taken + 1).last() == script);
                    assert(rest@ =~= scripts@.skip(taken + 1));
                    taken = taken + 1;
                }
                if chooses(allowed, &script) {
                    selected.push(script);
                }
            }
            assert(scripts@.take(taken) =~= scripts@);
        },
    }
    selected
}

/// The call of a script with what the user hands on to it: the words of
/// the user follow the call, each after a space. A call stays as it is
/// where the user hands nothing on, and no call stays no call.
pub open spec fn call_with_arguments(call_format: Option<String>, command: Seq<String>) -> Option<
    Seq<char>,
> {
    match call_format {
        Some(call) => if command.len() == 0 {
            Some(call@)
        } else {
            Some(call@ + " "@ + joined(command, " "@))
        },
        None => None,
    }
}

/// Adds to the call of a script what the user hands on to it.
pub fn with_arguments(call_format: Option<String>, command: &Vec<String>) -> (call: Option<String>)
    ensures
        call.is_some() == call_format.is_some(),
        call.is_some() ==> Some(call.unwrap()@) == call_with_arguments(call_format, command@),
{
    match call_format {
        Some(call) => {
            if command.len() == 0 {
                Some(call)
            } else {
                let mut call = call;
                let words = join(command, " ");
                call.append(" ");
                call.append(words.as_str());
                Some(call)
            }
        },
        None => None,
    }
}

/// The keys and values of a list as values.
pub open spec fn pair_views(pairs: Seq<(String, String)>) -> Seq<(Seq<char>, Seq<char>)> {
    pairs.map_values(|pair: (String, String)| (pair.0@, pair.1@))
}

/// What `Template::fill_with_hashmap` makes of a template and the values
/// for its placeholders.
pub uninterp spec fn filled_template(template: Seq<char>, values: Seq<(Seq<char>, Seq<char>)>) -> Seq<
    char,
>;

/// `text_placeholder::Template::new` and `fill_with_hashmap`: the template
/// with each placeholder `{{key}}` replaced by the value that the list
/// gives for the key, and by nothing where it gives none. The text depends
/// on the template and on the list alone.
#[verifier::external_body]
pub(crate) fn fill_template(template: &str, values: &Vec<(String, String)>) -> (text: String)
    ensures
        text@ == filled_template(template@, pair_views(values@)),
{
    let replacements: HashMap<&str, &str> = values.iter().map(
        |pair| (pair.0.as_str(), pair.1.as_str()),
    ).collect();
    Template::new(template).fill_with_hashmap(&replacements)
}

/// Why the command of a script cannot be written.
#[derive(Debug, Clone, Copy, PartialEq, Eq, Structural)]
pub enum ScriptError {
    /// The script does not say how it is called.
    MissingCallFormat,
    /// The call names the path of the script, and the script has none.
    MissingPath,
}

/// A script together with the address and the open ports that it is run
/// on.
#[derive(Debug, Clone)]
pub struct Script {
    /// Where the script lies.
    pub path: Option<String>,
    /// The address that was scanned.
    pub ip: IpAddress,
    /// The open ports found at the address.
    pub open_ports: Vec<u16>,
    /// The ports that the script names itself; they are handed on in place
    /// of the open ports.
    pub trigger_port: Option<String>,
    /// What stands between the ports.
    pub ports_separator: Option<String>,
    /// The tags of the script.
    pub tags: Option<Vec<String>>,
    /// The call, with placeholders for the script, the address, the ports
    /// and the family of the address.
    pub call_format: Option<String>,
}

impl Script {
    /// The ports as the call takes them: those that the script names, and
    /// else the open ports in decimal with the separator between them.
    pub open spec fn ports_argument(self) -> Seq<char> {
        match self.trigger_port {
            Some(ports) => ports@,
            None => ports_text(
                self.open_ports@,
                match self.ports_separator {
                    Some(separator) => separator@,
                    None => DEFAULT_SEPARATOR@,
                },
            ),
        }
    }

    /// The family of the address as the call takes it.
    pub open spec fn family_argument(self) -> Seq<char> {
        if self.ip.spec_is_ipv4() {
            "4"@
        } else {
            "6"@
        }
    }

    /// Whether the call names the path of the script.
    pub open spec fn names_script(self) -> bool {
        self.call_format.is_some() && has_substring(
            self.call_format.unwrap()@,
            SCRIPT_PLACEHOLDER@,
        )
    }

    /// The values for the placeholders of the call, given the address as
    /// text. The path stands for the script only where the call names it.
    pub open spec fn arguments(self, ip_text: Seq<char>) -> Seq<(Seq<char>, Seq<char>)> {
        seq![
            (
                "script"@,
                if self.names_script() && self.path.is_some() {
                    self.path.unwrap()@
                } else {
                    ""@
                },
            ),
            ("ip"@, ip_text),
            ("port"@, self.ports_argument()),
            ("ipversion"@, self.family_argument()),
        ]
    }

    /// A script and what it is run on.
    pub fn build(
        path: Option<String>,
        ip: IpAddress,
        open_ports: Vec<u16>,
        trigger_port: Option<String>,
        ports_separator: Option<String>,
        tags: Option<Vec<String>>,
        call_format: Option<String>,
    ) -> (script: Self)
        ensures
            script == (Script {
                path,
                ip,
                open_ports,
                trigger_port,
                ports_separator,
                tags,
                call_format,
            }),
    {
        Script { path, ip, open_ports, trigger_port, ports_separator, tags, call_format }
    }

    /// Writes the command that runs the script, given the address as text:
    /// the call with its placeholders filled in. There is no command
    /// where the script does not say how it is called, nor where the call
    /// names the path of a script that has none.
    pub fn command(&self, ip_text: &str) -> (command: Result<String, ScriptError>)
        ensures
            match command {
                Ok(text) => self.call_format.is_some() && (self.names_script()
                    ==> self.path.is_some()) && text@ == filled_template(
                    self.call_format.unwrap()@,
                    self.arguments(ip_text@),
                ),
                Err(ScriptError::MissingCallFormat) => self.call_format.is_none(),
                Err(ScriptError::MissingPath) => self.names_script() && self.path.is_none(),
            },
    {
        let format: &String = match &self.call_format {
            Some(format) => format,
            None => {
                return Err(ScriptError::MissingCallFormat);
            },
        };
        let ports: String = match &self.trigger_port {
            Some(ports) => ports.clone(),
            None => match &self.ports_separator {
                Some(separator) => join_ports(&self.open_ports, separator.as_str()),
                None => join_ports(&self.open_ports, DEFAULT_SEPARATOR),
            },
        };
        let script: String = if contains(format.as_str(), SCRIPT_PLACEHOLDER) {
            match &self.path {
                Some(path) => path.clone(),
                None => {
                    return Err(ScriptError::MissingPath);
                },
            }
        } else {
            String::from_str("")
        };
        let family: &str = if self.ip.is_ipv4() {
            "4"
        } else {
            "6"
        };
        let mut values: Vec<(String, String)> = Vec::new();
        values.push((String::from_str("script"), script));
        values.push((String::from_str("ip"), String::from_str(ip_text)));
        values.push((String::from_str("port"), ports));
        values.push((String::from_str("ipversion"), String::from_str(family)));
        assert(pair_views(values@) =~= self.arguments(ip_text@));
        Ok(fill_template(format.as_str(), &values))
    }
}

} // verus!
