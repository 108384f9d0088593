//! The command line of the build tool.
//!
//! `build-data [--content-dir <path>] [--out-dir <path>]` validates the content
//! and writes the data (defaults: `content`, `dist/data`);
//! `build-data import-kanjidic --xml <path> --chars <characters> --out-dir <path>
//! [--skip-existing] [--content-dir <path>]` drafts skeletons from KANJIDIC2.
//! `--help` or `-h` anywhere asks for the usage text.

use vstd::prelude::*;
use crate::text::{chars_of, str_eq};

verus! {

/// What the command line asks for.
#[derive(Debug, Clone, PartialEq, Eq)]
pub enum Command {
    /// The usage text of the tool.
    Help,
    /// Validate `content_dir` and write the data to `out_dir`.
    Build { content_dir: String, out_dir: String },
    /// The usage text of `import-kanjidic`.
    ImportHelp,
    /// Draft skeletons for `chars` from the KANJIDIC2 file `xml`.
    Import {
        xml: String,
        chars: Vec<char>,
        out_dir: String,
        skip_existing: bool,
        content_dir: String,
    },
}

/// The model of a parsed command line.
pub enum CommandModel {
    Help,
    Build { content_dir: Seq<char>, out_dir: Seq<char> },
    ImportHelp,
    Import {
        xml: Seq<char>,
        chars: Seq<char>,
        out_dir: Seq<char>,
        skip_existing: bool,
        content_dir: Seq<char>,
    },
}

impl View for Command {
    type V = CommandModel;

    open spec fn view(&self) -> CommandModel {
        match self {
            Command::Help => CommandModel::Help,
            Command::Build { content_dir, out_dir } => CommandModel::Build {
                content_dir: content_dir@,
                out_dir: out_dir@,
            },
            Command::ImportHelp => CommandModel::ImportHelp,
            Command::Import { xml, chars, out_dir, skip_existing, content_dir } => CommandModel::Import {
                xml: xml@,
                chars: chars@,
                out_dir: out_dir@,
                skip_existing: *skip_existing,
                content_dir: content_dir@,
            },
        }
    }
}

pub open spec fn is_help_flag(a: Seq<char>) -> bool {
    a == "--help"@ || a == "-h"@
}

pub open spec fn has_help_flag(args: Seq<Seq<char>>) -> bool {
    exists|i: int| 0 <= i < args.len() && is_help_flag(#[trigger] args[i])
}

/// The build options read from `args[i..]`, starting from `content` and `out`.
pub open spec fn build_options(args: Seq<Seq<char>>, i: int, content: Seq<char>, out: Seq<char>) -> Result<(Seq<char>, Seq<char>), Seq<char>>
    decreases args.len() - i,
{
    if i < 0 || i >= args.len() {
        Ok((content, out))
    } else if args[i] == "--content-dir"@ {
        if i + 1 < args.len() {
            build_options(args, i + 2, args[i + 1], out)
        } else {
            Err("--content-dir 뒤에 경로가 필요합니다"@)
        }
    } else if args[i] == "--out-dir"@ {
        if i + 1 < args.len() {
            build_options(args, i + 2, content, args[i + 1])
        } else {
            Err("--out-dir 뒤에 경로가 필요합니다"@)
        }
    } else {
        Err("알 수 없는 인자입니다: "@ + args[i])
    }
}

/// The import options gathered from `args[i..]`.
pub struct ImportDraft {
    pub xml: Option<Seq<char>>,
    pub chars: Option<Seq<char>>,
    pub out_dir: Option<Seq<char>>,
    pub skip_existing: bool,
    pub content_dir: Seq<char>,
}

pub open spec fn import_options(args: Seq<Seq<char>>, i: int, d: ImportDraft) -> Result<ImportDraft, Seq<char>>
    decreases args.len() - i,
{
    if i < 0 || i >= args.len() {
        Ok(d)
    } else if args[i] == "--skip-existing"@ {
        import_options(args, i + 1, ImportDraft { skip_existing: true, ..d })
    } else if args[i] == "--xml"@ || args[i] == "--chars"@ || args[i] == "--out-dir"@ || args[i]
        == "--content-dir"@ {
        if i + 1 < args.len() {
            let v = args[i + 1];
            let next = if args[i] == "--xml"@ {
                ImportDraft { xml: Some(v), ..d }
            } else if args[i] == "--chars"@ {
                ImportDraft { chars: Some(v), ..d }
            } else if args[i] == "--out-dir"@ {
                ImportDraft { out_dir: Some(v), ..d }
            } else {
                ImportDraft { content_dir: v, ..d }
            };
            import_options(args, i + 2, next)
        } else {
            Err(args[i] + " 뒤에 값이 필요합니다"@)
        }
    } else {
        Err("import-kanjidic: 알 수 없는 인자입니다: "@ + args[i])
    }
}

/// The import command, or the first problem with its arguments.
pub open spec fn import_command(args: Seq<Seq<char>>) -> Result<CommandModel, Seq<char>> {
    if has_help_flag(args) {
        Ok(CommandModel::ImportHelp)
    } else {
        let start = ImportDraft {
            xml: None,
            chars: None,
            out_dir: None,
            skip_existing: false,
            content_dir: "content"@,
        };
        match import_options(args, 0, start) {
            Err(e) => Err(e),
            Ok(d) => match (d.xml, d.chars, d.out_dir) {
                (None, _, _) => Err("import-kanjidic: --xml 인자가 필요합니다 (KANJIDIC2 XML 경로)"@),
                (Some(_), None, _) => Err(
                    "import-kanjidic: --chars 인자가 필요합니다 (예: --chars 一二三)"@,
                ),
                (Some(_), Some(_), None) => Err("import-kanjidic: --out-dir 인자가 필요합니다"@),
                (Some(x), Some(c), Some(o)) => if c.len() == 0 {
                    Err("import-kanjidic: --chars에 최소 한 글자 이상 지정해야 합니다"@)
                } else {
                    Ok(
                        CommandModel::Import {
                            xml: x,
                            chars: c,
                            out_dir: o,
                            skip_existing: d.skip_existing,
                            content_dir: d.content_dir,
                        },
                    )
                },
            },
        }
    }
}

/// What a command line (without the program name) asks for, or the message
/// of the first problem with it.
pub open spec fn command_spec(args: Seq<Seq<char>>) -> Result<CommandModel, Seq<char>> {
    if args.len() > 0 && args[0] == "import-kanjidic"@ {
        import_command(args.drop_first())
    } else if has_help_flag(args) {
        Ok(CommandModel::Help)
    } else {
        match build_options(args, 0, "content"@, "dist/data"@) {
            Ok((c, o)) => Ok(CommandModel::Build { content_dir: c, out_dir: o }),
            Err(e) => Err(e),
        }
    }
}

fn any_help_flag(args: &Vec<String>, from: usize) -> (r: bool)
    requires
        from <= args.len(),
    ensures
        r == has_help_flag(args.deep_view().skip(from as int)),
{
    let ghost rest = args.deep_view().skip(from as int);
    let mut i: usize = from;
    while i < args.len()
        invariant
            from <= i <= args.len(),
            rest == args.deep_view().skip(from as int),
            forall|k: int| 0 <= k < i - from ==> !is_help_flag(#[trigger] rest[k]),
        decreases args.len() - i,
    {
        let a = args[i].as_str();
        if str_eq(a, "--help") || str_eq(a, "-h") {
            assert(is_help_flag(rest[i - from]));
            return true;
        }
        assert(rest[i - from] == args@[i as int]@);
        i += 1;
    }
    false
}

fn parse_build(args: &Vec<String>) -> (r: Result<Command, String>)
    ensures
        match (r, build_options(args.deep_view(), 0, "content"@, "dist/data"@)) {
            (Ok(Command::Build { content_dir, out_dir }), Ok((c, o))) => content_dir@ == c && out_dir@
                == o,
            (Err(m), Err(e)) => m@ == e,
            _ => false,
        },
{
    let ghost a = args.deep_view();
    let mut content_dir = String::from_str("content");
    let mut out_dir = String::from_str("dist/data");
    let mut i: usize = 0;
    while i < args.len()
        invariant
            i <= args.len(),
            a == args.deep_view(),
            build_options(a, 0, "content"@, "dist/data"@) == build_options(
                a,
                i as int,
                content_dir@,
                out_dir@,
            ),
        decreases args.len() - i,
    {
        let flag = args[i].as_str();
        assert(a[i as int] == flag@);
        if str_eq(flag, "--content-dir") {
            if i + 1 < args.len() {
                content_dir = args[i + 1].clone();
                i += 2;
            } else {
                return Err(String::from_str("--content-dir 뒤에 경로가 필요합니다"));
            }
        } else if str_eq(flag, "--out-dir") {
            if i + 1 < args.len() {
                out_dir = args[i + 1].clone();
                i += 2;
            } else {
                return Err(String::from_str("--out-dir 뒤에 경로가 필요합니다"));
            }
        } else {
            let mut m = String::from_str("알 수 없는 인자입니다: ");
            m.append(flag);
            return Err(m);
        }
    }
    Ok(Command::Build { content_dir, out_dir })
}

fn parse_import(args: &Vec<String>) -> (r: Result<Command, String>)
    requires
        args.len() >= 1,
    ensures
        match (r, import_command(args.deep_view().drop_first())) {
            (Ok(c), Ok(m)) => c@ == m,
            (Err(m), Err(e)) => m@ == e,
            _ => false,
        },
{
    let ghost a = args.deep_view().drop_first();
    if any_help_flag(args, 1) {
        assert(args.deep_view().skip(1) == a);
        return Ok(Command::ImportHelp);
    }
    assert(args.deep_view().skip(1) == a);
    let mut xml: Option<String> = None;
    let mut chars: Option<String> = None;
    let mut out_dir: Option<String> = None;
    let mut skip_existing = false;
    let mut content_dir = String::from_str("content");
    let ghost start = ImportDraft {
        xml: None,
        chars: None,
        out_dir: None,
        skip_existing: false,
        content_dir: "content"@,
    };
    let mut i: usize = 1;
    while i < args.len()
        invariant
            1 <= i <= args.len(),
            a == args.deep_view().drop_first(),
            !has_help_flag(a),
            start == (ImportDraft {
                xml: None,
                chars: None,
                out_dir: None,
                skip_existing: false,
                content_dir: "content"@,
            }),
            import_options(a, 0, start) == import_options(
                a,
                i - 1,
                ImportDraft {
                    xml: match xml {
                        Some(v) => Some(v@),
                        None => None,
                    },
                    chars: match chars {
                        Some(v) => Some(v@),
                        None => None,
                    },
                    out_dir: match out_dir {
                        Some(v) => Some(v@),
                        None => None,
                    },
                    skip_existing: skip_existing,
                    content_dir: content_dir@,
                },
            ),
        decreases args.len() - i,
    {
        let flag = args[i].as_str();
        assert(a[i - 1] == flag@);
        if str_eq(flag, "--skip-existing") {
            skip_existing = true;
            i += 1;
        } else if str_eq(flag, "--xml") || str_eq(flag, "--chars") || str_eq(flag, "--out-dir")
            || str_eq(flag, "--content-dir") {
            if i + 1 < args.len() {
                let v = args[i + 1].clone();
                assert(a[i as int] == v@);
                if str_eq(flag, "--xml") {
                    xml = Some(v);
                } else if str_eq(flag, "--chars") {
                    chars = Some(v);
                } else if str_eq(flag, "--out-dir") {
                    out_dir = Some(v);
                } else {
                    content_dir = v;
                }
                i += 2;
            } else {
                let mut m = String::from_str(flag);
                m.append(" 뒤에 값이 필요합니다");
                return Err(m);
            }
        } else {
            let mut m = String::from_str("import-kanjidic: 알 수 없는 인자입니다: ");
            m.append(flag);
            return Err(m);
        }
    }
    match (xml, chars, out_dir) {
        (None, _, _) => Err(String::from_str("import-kanjidic: --xml 인자가 필요합니다 (KANJIDIC2 XML 경로)")),
        (Some(_), None, _) => Err(
            String::from_str("import-kanjidic: --chars 인자가 필요합니다 (예: --chars 一二三)"),
        ),
        (Some(_), Some(_), None) => Err(String::from_str("import-kanjidic: --out-dir 인자가 필요합니다")),
        (Some(x), Some(c), Some(o)) => {
            let cs = chars_of(c.as_str());
            if cs.len() == 0 {
                Err(String::from_str("import-kanjidic: --chars에 최소 한 글자 이상 지정해야 합니다"))
            } else {
                Ok(Command::Import { xml: x, chars: cs, out_dir: o, skip_existing, content_dir })
            }
        },
    }
}

/// Reads the command line `args` (without the program name).
pub fn parse_command(args: &Vec<String>) -> (r: Result<Command, String>)
    ensures
        match (r, command_spec(args.deep_view())) {
            (Ok(c), Ok(m)) => c@ == m,
            (Err(m), Err(e)) => m@ == e,
            _ => false,
        },
{
    if args.len() > 0 && str_eq(args[0].as_str(), "import-kanjidic") {
        return parse_import(args);
    }
    assert(args.len() > 0 ==> args.deep_view()[0] == args@[0]@);
    if any_help_flag(args, 0) {
        assert(args.deep_view().skip(0) == args.deep_view());
        return Ok(Command::Help);
    }
    assert(args.deep_view().skip(0) == args.deep_view());
    parse_build(args)
}

} // verus!
