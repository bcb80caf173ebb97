//! The command line.

use vstd::prelude::*;

use crate::strings::{from_chars, opt_view, parse_number, parsed_number, same, to_chars, views};

verus! {

/// The widest plain-text rendering that can be asked for.
pub const MAX_RENDER_WIDTH: usize = 10_000;

/// What to do, and with which configuration file.
pub struct Cli {
    pub action: Action,
    pub config_path: Option<String>,
}

/// What the command line asks for.
pub enum Action {
    Help,
    Version,
    Edit(Option<String>),
    Render(RenderOptions),
}

/// How to render a document to standard output.
pub struct RenderOptions {
    pub path: String,
    /// Whether the path is `-` and stands for the standard input.
    pub stdin: bool,
    pub width: Option<usize>,
    pub html: bool,
}

/// Why a command line is refused.
pub enum CliError {
    ExtraArgument,
    MissingWidth,
    InvalidWidth,
    MissingConfig,
    UnknownOption(String),
    MissingRenderFile,
    RenderOptionWithoutRender,
    StdinWithoutRender,
}

/// What a [`Cli`] says.
pub struct CliView {
    pub action: ActionView,
    pub config_path: Option<Seq<char>>,
}

/// What an [`Action`] says.
pub enum ActionView {
    Help,
    Version,
    Edit(Option<Seq<char>>),
    Render { path: Seq<char>, stdin: bool, width: Option<int>, html: bool },
}

/// What a [`CliError`] says.
pub enum CliErrorView {
    ExtraArgument,
    MissingWidth,
    InvalidWidth,
    MissingConfig,
    UnknownOption(Seq<char>),
    MissingRenderFile,
    RenderOptionWithoutRender,
    StdinWithoutRender,
}

impl View for Action {
    type V = ActionView;

    open spec fn view(&self) -> ActionView {
        match self {
            Action::Help => ActionView::Help,
            Action::Version => ActionView::Version,
            Action::Edit(path) => ActionView::Edit(opt_view(*path)),
            Action::Render(options) => ActionView::Render {
                path: options.path@,
                stdin: options.stdin,
                width: match options.width {
                    Some(w) => Some(w as int),
                    None => None,
                },
                html: options.html,
            },
        }
    }
}

impl View for Cli {
    type V = CliView;

    open spec fn view(&self) -> CliView {
        CliView { action: self.action@, config_path: opt_view(self.config_path) }
    }
}

impl View for CliError {
    type V = CliErrorView;

    open spec fn view(&self) -> CliErrorView {
        match self {
            CliError::ExtraArgument => CliErrorView::ExtraArgument,
            CliError::MissingWidth => CliErrorView::MissingWidth,
            CliError::InvalidWidth => CliErrorView::InvalidWidth,
            CliError::MissingConfig => CliErrorView::MissingConfig,
            CliError::UnknownOption(arg) => CliErrorView::UnknownOption(arg@),
            CliError::MissingRenderFile => CliErrorView::MissingRenderFile,
            CliError::RenderOptionWithoutRender => CliErrorView::RenderOptionWithoutRender,
            CliError::StdinWithoutRender => CliErrorView::StdinWithoutRender,
        }
    }
}

/// What has been read of a command line.
pub struct Options {
    pub config_path: Option<Seq<char>>,
    pub render: bool,
    pub width: Option<int>,
    pub html: bool,
    pub file: Option<Seq<char>>,
    /// Whether the file was named after `--`.
    pub literal: bool,
}

impl Options {
    /// Whether the file stands for the standard input.
    pub open spec fn stdin(self) -> bool {
        self.file == Some("-"@) && !self.literal
    }
}

/// What comes of a command line.
pub type Parsed = Result<CliView, CliErrorView>;

/// The position of the first `=`, or the length of the text.
pub open spec fn first_equals(arg: Seq<char>) -> int
    decreases arg.len(),
{
    if arg.len() == 0 || arg[0] == '=' {
        0
    } else {
        1 + first_equals(arg.skip(1))
    }
}

/// An argument split at its first `=` where the name is one that takes a value.
pub open spec fn split_inline(arg: Seq<char>) -> (Seq<char>, Option<Seq<char>>) {
    let at = first_equals(arg);
    let name = arg.take(at);
    if at < arg.len() && (name == "--width"@ || name == "--config"@ || name == "-c"@) {
        (name, Some(arg.skip(at + 1)))
    } else {
        (arg, None)
    }
}

/// Whether the text begins like an option.
pub open spec fn dashed(arg: Seq<char>) -> bool {
    arg.len() > 0 && arg[0] == '-'
}

/// What is done once every argument is read.
pub open spec fn concluded(o: Options) -> Parsed {
    if o.render {
        match o.file {
            Some(path) => Ok(
                CliView {
                    action: ActionView::Render {
                        path,
                        stdin: o.stdin(),
                        width: o.width,
                        html: o.html,
                    },
                    config_path: o.config_path,
                },
            ),
            None => Err(CliErrorView::MissingRenderFile),
        }
    } else if o.width is Some || o.html {
        Err(CliErrorView::RenderOptionWithoutRender)
    } else if o.stdin() {
        Err(CliErrorView::StdinWithoutRender)
    } else {
        Ok(CliView { action: ActionView::Edit(o.file), config_path: o.config_path })
    }
}

/// The arguments after `--`: filenames all, of which there can be one.
pub open spec fn parse_filenames(args: Seq<Seq<char>>, o: Options) -> Parsed {
    if args.len() == 0 {
        concluded(o)
    } else if o.file is Some || args.len() > 1 {
        Err(CliErrorView::ExtraArgument)
    } else {
        concluded(Options { file: Some(args[0]), literal: true, ..o })
    }
}

/// The value of an option: the text after its `=`, or else the next argument,
/// with the arguments that are left after it.
pub open spec fn option_value(inline: Option<Seq<char>>, rest: Seq<Seq<char>>) -> Option<
    (Seq<char>, Seq<Seq<char>>),
> {
    match inline {
        Some(value) => Some((value, rest)),
        None => if rest.len() > 0 {
            Some((rest[0], rest.skip(1)))
        } else {
            None
        },
    }
}

/// A command line read from left to right.
pub open spec fn parse_args(args: Seq<Seq<char>>, o: Options) -> Parsed
    decreases args.len(),
{
    if args.len() == 0 {
        concluded(o)
    } else {
        let (name, inline) = split_inline(args[0]);
        let rest = args.skip(1);
        if name == "-h"@ || name == "--help"@ {
            Ok(CliView { action: ActionView::Help, config_path: o.config_path })
        } else if name == "-V"@ || name == "--version"@ {
            Ok(CliView { action: ActionView::Version, config_path: o.config_path })
        } else if name == "-r"@ || name == "--render"@ {
            parse_args(rest, Options { render: true, ..o })
        } else if name == "--width"@ {
            match option_value(inline, rest) {
                None => Err(CliErrorView::MissingWidth),
                Some((value, left)) => match parsed_number(value) {
                    Some(w) => if 1 <= w <= MAX_RENDER_WIDTH {
                        if inline is Some {
                            parse_args(rest, Options { width: Some(w as int), ..o })
                        } else {
                            parse_args(rest.skip(1), Options { width: Some(w as int), ..o })
                        }
                    } else {
                        Err(CliErrorView::InvalidWidth)
                    },
                    None => Err(CliErrorView::InvalidWidth),
                },
            }
        } else if name == "--html"@ {
            parse_args(rest, Options { html: true, ..o })
        } else if name == "-c"@ || name == "--config"@ {
            match option_value(inline, rest) {
                None => Err(CliErrorView::MissingConfig),
                Some((value, left)) => if dashed(value) {
                    Err(CliErrorView::MissingConfig)
                } else if inline is Some {
                    parse_args(rest, Options { config_path: Some(value), ..o })
                } else {
                    parse_args(rest.skip(1), Options { config_path: Some(value), ..o })
                },
            }
        } else if name == "--"@ {
            parse_filenames(rest, o)
        } else if name != "-"@ && dashed(name) {
            Err(CliErrorView::UnknownOption(name))
        } else if o.file is Some {
            Err(CliErrorView::ExtraArgument)
        } else {
            parse_args(rest, Options { file: Some(name), ..o })
        }
    }
}

/// Nothing read yet.
pub open spec fn no_options() -> Options {
    Options { config_path: None, render: false, width: None, html: false, file: None, literal: false }
}

/// After `--` an argument is a filename, whatever it looks like.
pub proof fn lemma_filename_after_dashes(file: Seq<char>)
    ensures
        parse_args(seq!["--"@, file], no_options()) == Ok::<CliView, CliErrorView>(
            CliView { action: ActionView::Edit(Some(file)), config_path: None },
        ),
{
    reveal_strlit("--");
    reveal_strlit("-h");
    reveal_strlit("--help");
    reveal_strlit("-V");
    reveal_strlit("--version");
    reveal_strlit("-r");
    reveal_strlit("--render");
    reveal_strlit("--width");
    reveal_strlit("--html");
    reveal_strlit("-c");
    reveal_strlit("--config");
    let args = seq!["--"@, file];
    reveal_with_fuel(first_equals, 3);
    assert("-h"@[1] == 'h' && "-V"@[1] == 'V' && "-r"@[1] == 'r' && "-c"@[1] == 'c');
    assert("--"@[1] == '-');
    assert("--"@.skip(1).skip(1).len() == 0);
    assert(first_equals("--"@) == 2);
    assert(args.skip(1) =~= seq![file]);
}

/// What is read of a command line so far, as the program holds it.
struct Progress {
    config_path: Option<String>,
    render: bool,
    width: Option<usize>,
    html: bool,
    file: Option<String>,
    literal: bool,
}

impl View for Progress {
    type V = Options;

    closed spec fn view(&self) -> Options {
        Options {
            config_path: opt_view(self.config_path),
            render: self.render,
            width: match self.width {
                Some(w) => Some(w as int),
                None => None,
            },
            html: self.html,
            file: opt_view(self.file),
            literal: self.literal,
        }
    }
}

impl Progress {
    /// What comes of the command line now that it is read.
    fn conclude(self) -> (parsed: Result<Cli, CliError>)
        ensures
            parsed_view(parsed) == concluded(self@),
    {
        let stdin = match &self.file {
            Some(path) => same(path.as_str(), "-") && !self.literal,
            None => false,
        };
        if self.render {
            match self.file {
                Some(path) => Ok(
                    Cli {
                        action: Action::Render(
                            RenderOptions { path, stdin, width: self.width, html: self.html },
                        ),
                        config_path: self.config_path,
                    },
                ),
                None => Err(CliError::MissingRenderFile),
            }
        } else if self.width.is_some() || self.html {
            Err(CliError::RenderOptionWithoutRender)
        } else if stdin {
            Err(CliError::StdinWithoutRender)
        } else {
            Ok(Cli { action: Action::Edit(self.file), config_path: self.config_path })
        }
    }
}

/// What the result of parsing says.
pub open spec fn parsed_view(r: Result<Cli, CliError>) -> Parsed {
    match r {
        Ok(cli) => Ok(cli@),
        Err(e) => Err(e@),
    }
}

proof fn lemma_first_equals_at(s: Seq<char>, i: int)
    requires
        0 <= i <= s.len(),
        forall|j: int| 0 <= j < i ==> s[j] != '=',
        i == s.len() || s[i] == '=',
    ensures
        first_equals(s) == i,
    decreases s.len(),
{
    if i > 0 {
        assert(s[0] != '=');
        assert forall|j: int| 0 <= j < i - 1 implies s.skip(1)[j] != '=' by {
            assert(s.skip(1)[j] == s[j + 1]);
        }
        lemma_first_equals_at(s.skip(1), i - 1);
    }
}

/// Split an argument at its first `=`, where the name takes a value.
fn split_argument(arg: &str) -> (r: (String, Option<String>))
    ensures
        (r.0@, opt_view(r.1)) == split_inline(arg@),
{
    let chars = to_chars(arg);
    let mut i: usize = 0;
    while i < chars.len() && chars[i] != '='
        invariant
            i <= chars@.len(),
            chars@ == arg@,
            forall|j: int| 0 <= j < i ==> chars@[j] != '=',
        decreases chars@.len() - i,
    {
        i += 1;
    }
    proof {
        lemma_first_equals_at(arg@, i as int);
    }
    if i < chars.len() {
        let name = from_chars(&chars, 0, i);
        assert(name@ =~= arg@.take(i as int));
        if same(name.as_str(), "--width") || same(name.as_str(), "--config") || same(
            name.as_str(),
            "-c",
        ) {
            let value = from_chars(&chars, i + 1, chars.len());
            assert(value@ =~= arg@.skip(i + 1));
            return (name, Some(value));
        }
    }
    (arg.to_owned(), None)
}

fn starts_with_dash(s: &str) -> (yes: bool)
    ensures
        yes == dashed(s@),
{
    let chars = to_chars(s);
    chars.len() > 0 && chars[0] == '-'
}

impl Cli {
    /// Read a command line, the program's own name left out.
    #[verifier::rlimit(40)]
    pub fn parse(args: Vec<String>) -> (parsed: Result<Cli, CliError>)
        ensures
            parsed_view(parsed) == parse_args(views(args@), no_options()),
    {
        let mut p = Progress {
            config_path: None,
            render: false,
            width: None,
            html: false,
            file: None,
            literal: false,
        };
        let ghost all = views(args@);
        let mut i: usize = 0;
        assert(all.skip(0) =~= all);
        while i < args.len()
            invariant
                i <= args@.len(),
                all == views(args@),
                parse_args(all.skip(i as int), p@) == parse_args(all, no_options()),
            decreases args@.len() - i,
        {
            let ghost left = all.skip(i as int);
            assert(left[0] == args@[i as int]@);
            let (name, inline) = split_argument(args[i].as_str());
            i += 1;
            assert(left.skip(1) =~= all.skip(i as int));
            if same(name.as_str(), "-h") || same(name.as_str(), "--help") {
                return Ok(Cli { action: Action::Help, config_path: p.config_path });
            } else if same(name.as_str(), "-V") || same(name.as_str(), "--version") {
                return Ok(Cli { action: Action::Version, config_path: p.config_path });
            } else if same(name.as_str(), "-r") || same(name.as_str(), "--render") {
                p.render = true;
            } else if same(name.as_str(), "--width") {
                let value = match inline {
                    Some(value) => value,
                    None => {
                        if i >= args.len() {
                            return Err(CliError::MissingWidth);
                        }
                        i += 1;
                        assert(left.skip(1).skip(1) =~= all.skip(i as int));
                        args[i - 1].clone()
                    },
                };
                match parse_number(value.as_str(), MAX_RENDER_WIDTH) {
                    Some(width) => {
                        if width < 1 {
                            return Err(CliError::InvalidWidth);
                        }
                        p.width = Some(width);
                    },
                    None => {
                        return Err(CliError::InvalidWidth);
                    },
                }
            } else if same(name.as_str(), "--html") {
                p.html = true;
            } else if same(name.as_str(), "-c") || same(name.as_str(), "--config") {
                let value = match inline {
                    Some(value) => value,
                    None => {
                        if i >= args.len() {
                            return Err(CliError::MissingConfig);
                        }
                        i += 1;
                        assert(left.skip(1).skip(1) =~= all.skip(i as int));
                        args[i - 1].clone()
                    },
                };
                if starts_with_dash(value.as_str()) {
                    return Err(CliError::MissingConfig);
                }
                p.config_path = Some(value);
            } else if same(name.as_str(), "--") {
                let count: usize = args.len() - i;
                if count == 0 {
                    return p.conclude();
                }
                if p.file.is_some() || count > 1 {
                    return Err(CliError::ExtraArgument);
                }
                p.file = Some(args[i].clone());
                p.literal = true;
                return p.conclude();
            } else if !same(name.as_str(), "-") && starts_with_dash(name.as_str()) {
                return Err(CliError::UnknownOption(name));
            } else {
                if p.file.is_some() {
                    return Err(CliError::ExtraArgument);
                }
                p.file = Some(name);
            }
        }
        assert(all.skip(i as int) =~= Seq::empty());
        p.conclude()
    }
}

impl CliError {
    /// The message for the user; some end with the help text.
    pub open spec fn message_text(self, help: Seq<char>) -> Seq<char> {
        match self {
            CliError::ExtraArgument => "unexpected extra argument\n\n"@ + help,
            CliError::MissingWidth => "usage: marqi -r FILE --width COLUMNS"@,
            CliError::InvalidWidth => "render width must be between 1 and 10000"@,
            CliError::MissingConfig => "usage: marqi -c <config.toml or dir> [FILE]"@,
            CliError::UnknownOption(arg) => "unknown option: "@ + arg@ + "\n\n"@ + help,
            CliError::MissingRenderFile => "usage: marqi -r <file or ->"@,
            CliError::RenderOptionWithoutRender => "--width and --html require --render"@,
            CliError::StdinWithoutRender => "- is only supported with --render"@,
        }
    }

    /// The message for the user, `help` being the help text.
    pub fn message(&self, help: &str) -> (text: String)
        ensures
            text@ == self.message_text(help@),
    {
        match self {
            CliError::ExtraArgument => {
                let mut text = String::from_str("unexpected extra argument\n\n");
                text.append(help);
                text
            },
            CliError::MissingWidth => String::from_str("usage: marqi -r FILE --width COLUMNS"),
            CliError::InvalidWidth => String::from_str("render width must be between 1 and 10000"),
            CliError::MissingConfig => String::from_str(
                "usage: marqi -c <config.toml or dir> [FILE]",
            ),
            CliError::UnknownOption(arg) => {
                let mut text = String::from_str("unknown option: ");
                text.append(arg.as_str());
                text.append("\n\n");
                text.append(help);
                text
            },
            CliError::MissingRenderFile => String::from_str("usage: marqi -r <file or ->"),
            CliError::RenderOptionWithoutRender => String::from_str(
                "--width and --html require --render",
            ),
            CliError::StdinWithoutRender => String::from_str("- is only supported with --render"),
        }
    }
}

/// The general reference that `--help` prints, without the line on the
/// configuration file.
pub const HELP: &'static str =
    "marqi — a live-preview terminal markdown editor\n\nUSAGE:\n    marqi [OPTIONS] [FILE]    Open FILE (or a new buffer if omitted)\n    curl -s URL | marqi       Edit markdown piped on stdin\n    marqi -r FILE             Render FILE (or - for stdin) to stdout\n\nOPTIONS:\n    -r, --render              Render instead of opening the editor\n    --width COLUMNS           Set plain-text render width\n    --html                    Render HTML instead of plain text\n    -c, --config PATH         Load a config.toml (or DIR containing one)\n    --                        Treat every following argument as a filename\n    -h, --help                Show this help\n    -V, --version             Show version\n\nKEYS:\n    ^S save · ^Q quit · ^F find · ^P preview · ^⇧P or F1 commands\n    Press ^G inside the editor for the full, scrollable reference.\n";

/// The help text; `config` is the path of the configuration file, where known.
pub fn help(config: Option<&str>) -> (text: String)
    ensures
        text@ == HELP@ + "\nCONFIG (optional): "@ + (match config {
            Some(path) => path@,
            None => "config.toml"@,
        }) + " — see marqi.example.toml\n"@,
{
    let mut text = String::from_str(HELP);
    text.append("\nCONFIG (optional): ");
    match config {
        Some(path) => text.append(path),
        None => text.append("config.toml"),
    }
    text.append(" — see marqi.example.toml\n");
    text
}

/// Whether `c` is a control character.
pub open spec fn is_control(c: char) -> bool {
    (c as u32) < 0x20 || 0x7f <= (c as u32) < 0xa0
}

/// The character shown for `c`: control characters other than the tab become the
/// replacement character.
pub open spec fn printed(c: char) -> char {
    if is_control(c) && c != '\t' {
        '\u{fffd}'
    } else {
        c
    }
}

/// `text` as it is written to a terminal or a file, with no control character in it
/// but the tab.
pub fn printable(text: &str) -> (out: String)
    ensures
        out@ == text@.map_values(|c: char| printed(c)),
        forall|i: int| 0 <= i < out@.len() ==> !is_control(#[trigger] out@[i]) || out@[i] == '\t',
{
    let chars = to_chars(text);
    let mut out = String::new();
    let mut i: usize = 0;
    while i < chars.len()
        invariant
            i <= chars@.len(),
            chars@ == text@,
            out@.len() == i,
            forall|j: int| 0 <= j < i ==> out@[j] == printed(text@[j]),
        decreases chars@.len() - i,
    {
        let c = chars[i];
        let code: u32 = c as u32;
        let control = code < 0x20 || (0x7f <= code && code < 0xa0);
        out.push(
            if control && c != '\t' {
                '\u{fffd}'
            } else {
                c
            },
        );
        i += 1;
    }
    assert(out@ =~= text@.map_values(|c: char| printed(c)));
    out
}

proof fn lemma_no_equals(s: Seq<char>)
    requires
        forall|i: int| 0 <= i < s.len() ==> #[trigger] s[i] != '=',
    ensures
        first_equals(s) == s.len(),
        split_inline(s) == (s, None::<Seq<char>>),
    decreases s.len(),
{
    if s.len() > 0 {
        let rest = s.skip(1);
        assert forall|i: int| 0 <= i < rest.len() implies #[trigger] rest[i] != '=' by {
            assert(rest[i] == s[i + 1]);
        }
        lemma_no_equals(rest);
    }
}

proof fn lemma_begins_like(s: Seq<char>)
    ensures
        0 <= first_equals(s) <= s.len(),
        first_equals(s) > 0 ==> s.take(first_equals(s))[0] == s[0],
    decreases s.len(),
{
    if s.len() > 0 && s[0] != '=' {
        lemma_begins_like(s.skip(1));
    }
}

/// The switches do what they say wherever they stand: the short names what the long ones do.
#[verifier::spinoff_prover]
pub proof fn lemma_switches_are_read(rest: Seq<Seq<char>>, o: Options)
    ensures
        parse_args(seq!["-h"@] + rest, o) == Ok::<CliView, CliErrorView>(
            CliView { action: ActionView::Help, config_path: o.config_path },
        ),
        parse_args(seq!["--help"@] + rest, o) == Ok::<CliView, CliErrorView>(
            CliView { action: ActionView::Help, config_path: o.config_path },
        ),
        parse_args(seq!["-V"@] + rest, o) == Ok::<CliView, CliErrorView>(
            CliView { action: ActionView::Version, config_path: o.config_path },
        ),
        parse_args(seq!["--version"@] + rest, o) == Ok::<CliView, CliErrorView>(
            CliView { action: ActionView::Version, config_path: o.config_path },
        ),
        parse_args(seq!["-r"@] + rest, o) == parse_args(rest, Options { render: true, ..o }),
        parse_args(seq!["--render"@] + rest, o) == parse_args(rest, Options { render: true, ..o }),
        parse_args(seq!["--html"@] + rest, o) == parse_args(rest, Options { html: true, ..o }),
{
    reveal_strlit("-h");
    reveal_strlit("--help");
    reveal_strlit("-V");
    reveal_strlit("--version");
    reveal_strlit("-r");
    reveal_strlit("--render");
    reveal_strlit("--width");
    reveal_strlit("--html");
    lemma_no_equals("-h"@);
    lemma_no_equals("--help"@);
    lemma_no_equals("-V"@);
    lemma_no_equals("--version"@);
    lemma_no_equals("-r"@);
    lemma_no_equals("--render"@);
    lemma_no_equals("--html"@);
    assert("-V"@[1] == 'V' && "-h"@[1] == 'h' && "-r"@[1] == 'r');
    assert("--help"@.len() == 6 && "--html"@.len() == 6 && "--help"@[3] == 'e' && "--html"@[3] == 't');
    assert((seq!["-h"@] + rest).skip(1) =~= rest);
    assert((seq!["--help"@] + rest).skip(1) =~= rest);
    assert((seq!["-V"@] + rest).skip(1) =~= rest);
    assert((seq!["--version"@] + rest).skip(1) =~= rest);
    assert((seq!["-r"@] + rest).skip(1) =~= rest);
    assert((seq!["--render"@] + rest).skip(1) =~= rest);
    assert((seq!["--html"@] + rest).skip(1) =~= rest);
}

/// What does not begin like an option is the file, and there can be one of them.
#[verifier::spinoff_prover]
pub proof fn lemma_the_file_is_read(file: Seq<char>, rest: Seq<Seq<char>>, o: Options)
    requires
        file.len() > 0,
        file[0] != '-',
    ensures
        o.file is None ==> parse_args(seq![file] + rest, o) == parse_args(
            rest,
            Options { file: Some(file), ..o },
        ),
        o.file is Some ==> parse_args(seq![file] + rest, o) == Err::<CliView, CliErrorView>(
            CliErrorView::ExtraArgument,
        ),
{
    reveal_strlit("-h");
    reveal_strlit("--help");
    reveal_strlit("-V");
    reveal_strlit("--version");
    reveal_strlit("-r");
    reveal_strlit("--render");
    reveal_strlit("--width");
    reveal_strlit("--html");
    reveal_strlit("-c");
    reveal_strlit("--config");
    reveal_strlit("--");
    lemma_begins_like(file);
    let name = file.take(first_equals(file));
    if name.len() > 0 {
        assert(name[0] == file[0]);
    }
    assert(split_inline(file) == (file, None::<Seq<char>>));
    assert((seq![file] + rest).skip(1) =~= rest);
}

/// Without anything else, a file is edited; with the switch to render, it is rendered, `-`
/// from the standard input; and what is for rendering only is refused without that switch.
pub proof fn lemma_what_is_asked_for_is_done(o: Options, file: Seq<char>)
    ensures
        !o.render && o.width is None && !o.html && o.file == Some(file) && file != "-"@ ==> concluded(o)
            == Ok::<CliView, CliErrorView>(
            CliView { action: ActionView::Edit(Some(file)), config_path: o.config_path },
        ),
        o.render && o.file == Some(file) ==> concluded(o) == Ok::<CliView, CliErrorView>(
            CliView {
                action: ActionView::Render {
                    path: file,
                    stdin: file == "-"@ && !o.literal,
                    width: o.width,
                    html: o.html,
                },
                config_path: o.config_path,
            },
        ),
        o.render && o.file is None ==> concluded(o) == Err::<CliView, CliErrorView>(
            CliErrorView::MissingRenderFile,
        ),
        !o.render && (o.width is Some || o.html) ==> concluded(o) == Err::<CliView, CliErrorView>(
            CliErrorView::RenderOptionWithoutRender,
        ),
{
}

} // verus!
