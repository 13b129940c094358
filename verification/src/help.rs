//! The command line manual in Markdown, made from the long help of every command.
use crate::text;
use vstd::prelude::*;
use vstd::string::*;

verus! {

/// One command: its name, the long help that it prints, and the commands below it.
pub struct HelpPage {
    pub name: String,
    pub help: String,
    pub subcommands: Vec<HelpPage>,
}

/// What the last heading in capitals was.
#[derive(Clone, Copy)]
pub struct Section {
    /// It was `SUBCOMMANDS`.
    pub listing: bool,
    /// It was `USAGE`.
    pub usage: bool,
}

/// A line that ends with a colon and is not indented is a heading.
pub open spec fn is_heading(line: Seq<char>) -> bool {
    line.len() > 0 && line.last() == ':' && !text::begins_with_char(line, ' ')
}

/// No small ASCII letter stands in `s`.
pub open spec fn screams(s: Seq<char>) -> bool {
    forall|i: int| 0 <= i < s.len() ==> !('a' <= #[trigger] s[i] <= 'z')
}

/// The section that the lines after `line` belong to.
pub open spec fn section_after(section: Section, line: Seq<char>) -> Section {
    if is_heading(line) && screams(line.drop_last()) {
        Section {
            listing: line.drop_last() == "SUBCOMMANDS"@,
            usage: line.drop_last() == "USAGE"@,
        }
    } else {
        section
    }
}

/// How the manual calls the command `name`: nothing for the command at the root.
pub open spec fn title_text(name: Seq<char>, is_root: bool) -> Seq<char> {
    if is_root {
        seq![]
    } else {
        "cargo vet "@ + name + " "@
    }
}

/// The Markdown for one line of the help of the command `name`.
pub open spec fn line_text(
    name: Seq<char>,
    is_root: bool,
    section: Section,
    line: Seq<char>,
) -> Seq<char> {
    let t = text::trimmed(line);
    if is_heading(line) {
        if screams(line.drop_last()) {
            "### "@ + title_text(name, is_root) + line.drop_last() + "\n"@
        } else {
            "### "@ + line.drop_last() + "\n"@
        }
    } else if section.listing && !text::begins_with(line, "     "@) {
        "* ["@ + t + "](#cargo-vet-"@ + t + "): "@
    } else if section.usage && text::begins_with(t, name) {
        if is_root {
            "```\n"@ + t + "\n```\n"@
        } else {
            "```\ncargo vet "@ + t + "\n```\n"@
        }
    } else if text::begins_with_char(t, '-') || text::begins_with_char(t, '<') {
        "#### `"@ + t + "`\n"@
    } else if text::begins_with_char(t, '[') {
        "\\"@ + t + "  \n"@
    } else {
        t + "\n"@
    }
}

/// The Markdown for the lines that follow, in the section that they begin in.
pub open spec fn body_text(
    name: Seq<char>,
    is_root: bool,
    section: Section,
    rest: Seq<Seq<char>>,
) -> Seq<char>
    decreases rest.len(),
{
    if rest.len() == 0 {
        seq![]
    } else {
        line_text(name, is_root, section, rest[0]) + body_text(
            name,
            is_root,
            section_after(section, rest[0]),
            rest.drop_first(),
        )
    }
}

/// What stands above the lines of a command.
pub open spec fn head_text(name: Seq<char>, is_root: bool, first: Seq<char>) -> Seq<char> {
    if is_root {
        "Version: `"@ + first + "`\n\n"@
    } else {
        "<br><br><br>\n## "@ + title_text(name, false) + "\n"@
    }
}

/// The Markdown for one command. The first line of its help is its version line.
pub open spec fn page_text(page: HelpPage, is_root: bool) -> Seq<char> {
    let all = text::lines_of(page.help@);
    head_text(page.name@, is_root, all[0]) + body_text(
        page.name@,
        is_root,
        (Section { listing: false, usage: false }),
        all.drop_first(),
    ) + "\n"@
}

/// A command and all commands below it, each before its subcommands, and the last of several
/// subcommands first.
pub open spec fn pages_under(page: HelpPage) -> Seq<HelpPage>
    decreases page,
{
    seq![page] + pages_under_all(page.subcommands@)
}

/// The commands under a list of commands, the last of the list first.
pub open spec fn pages_under_all(pages: Seq<HelpPage>) -> Seq<HelpPage>
    decreases pages,
{
    if pages.len() == 0 {
        seq![]
    } else {
        pages_under(pages[pages.len() - 1]) + pages_under_all(
            pages.subrange(0, pages.len() - 1),
        )
    }
}

/// The Markdown for commands that are not the root.
pub open spec fn pages_text(pages: Seq<HelpPage>) -> Seq<char>
    decreases pages.len(),
{
    if pages.len() == 0 {
        seq![]
    } else {
        page_text(pages[0], false) + pages_text(pages.drop_first())
    }
}

/// What the manual begins with.
pub open spec fn intro_text() -> Seq<char> {
    "# cargo vet CLI manual\n\n> This manual can be regenerated with `cargo vet help-markdown`\n\n"@
}

/// The whole manual for the command `root` and the commands below it.
pub open spec fn manual_text(root: HelpPage) -> Seq<char> {
    intro_text() + page_text(root, true) + pages_text(pages_under_all(root.subcommands@))
}

/// Every command under `page` prints some help.
pub open spec fn has_help(page: HelpPage) -> bool {
    forall|i: int|
        0 <= i < pages_under(page).len() ==> (#[trigger] pages_under(page)[i]).help@.len() > 0
}

/// Adding to the front of the text that follows is adding to the end of the text before.
proof fn lemma_body_step(
    done: Seq<char>,
    name: Seq<char>,
    is_root: bool,
    section: Section,
    rest: Seq<Seq<char>>,
)
    requires
        rest.len() > 0,
    ensures
        done + body_text(name, is_root, section, rest) == (done + line_text(
            name,
            is_root,
            section,
            rest[0],
        )) + body_text(name, is_root, section_after(section, rest[0]), rest.drop_first()),
{
}

/// Whether a line is a heading.
fn heading(line: &str) -> (r: bool)
    ensures
        r == is_heading(line@),
{
    let n: usize = line.unicode_len();
    n > 0 && line.get_char(n - 1) == ':' && !text::starts_with_char(line, ' ')
}

/// Whether no small ASCII letter stands in a text.
fn in_capitals(s: &str) -> (r: bool)
    ensures
        r == screams(s@),
{
    let chars = text::chars_of(s);
    let mut i: usize = 0;
    while i < chars.len()
        invariant
            i <= chars@.len(),
            chars@ == s@,
            forall|j: int| 0 <= j < i ==> !('a' <= #[trigger] s@[j] <= 'z'),
        decreases chars@.len() - i,
    {
        if 'a' <= chars[i] && chars[i] <= 'z' {
            assert('a' <= s@[i as int] <= 'z');
            return false;
        }
        i = i + 1;
    }
    true
}

/// How the manual calls a command.
fn title(name: &str, is_root: bool) -> (r: String)
    ensures
        r@ == title_text(name@, is_root),
{
    let mut r = String::new();
    if !is_root {
        r.append("cargo vet ");
        r.append(name);
        r.append(" ");
        assert(r@ == title_text(name@, is_root));
    }
    r
}

/// Writes one line of the help of the command `name`.
fn write_line(out: &mut String, name: &str, is_root: bool, section: Section, line: &str)
    ensures
        final(out)@ == old(out)@ + line_text(name@, is_root, section, line@),
{
    let ghost start = out@;
    if heading(line) {
        let n: usize = line.unicode_len();
        let words = line.substring_char(0, n - 1);
        assert(words@ == line@.drop_last());
        out.append("### ");
        if in_capitals(words) {
            let t = title(name, is_root);
            out.append(t.as_str());
        }
        out.append(words);
        out.append("\n");
        assert(out@ == start + line_text(name@, is_root, section, line@));
        return;
    }
    let t = text::trim(line);
    if section.listing && !text::starts_with(line, "     ") {
        out.append("* [");
        out.append(t);
        out.append("](#cargo-vet-");
        out.append(t);
        out.append("): ");
    } else if section.usage && text::starts_with(t, name) {
        if is_root {
            out.append("```\n");
        } else {
            out.append("```\ncargo vet ");
        }
        out.append(t);
        out.append("\n```\n");
    } else if text::starts_with_char(t, '-') || text::starts_with_char(t, '<') {
        out.append("#### `");
        out.append(t);
        out.append("`\n");
    } else if text::starts_with_char(t, '[') {
        out.append("\\");
        out.append(t);
        out.append("  \n");
    } else {
        out.append(t);
        out.append("\n");
    }
    assert(out@ == start + line_text(name@, is_root, section, line@));
}

/// Finds the section that the lines after `line` belong to.
fn next_section(section: Section, line: &str) -> (r: Section)
    ensures
        r == section_after(section, line@),
{
    if heading(line) {
        let n: usize = line.unicode_len();
        let words = line.substring_char(0, n - 1);
        assert(words@ == line@.drop_last());
        if in_capitals(words) {
            return Section {
                listing: text::same_text(words, "SUBCOMMANDS"),
                usage: text::same_text(words, "USAGE"),
            };
        }
    }
    section
}

/// Writes one command.
fn write_page(out: &mut String, page: &HelpPage, is_root: bool)
    requires
        page.help@.len() > 0,
    ensures
        final(out)@ == old(out)@ + page_text(*page, is_root),
{
    let ghost start = out@;
    let all = text::lines(page.help.as_str());
    let ghost views = text::texts(all@);
    assert(views == text::lines_of(page.help@));
    assert(views.len() > 0);
    let name = page.name.as_str();
    if is_root {
        out.append("Version: `");
        out.append(all[0].as_str());
        out.append("`\n\n");
    } else {
        out.append("<br><br><br>\n## ");
        let t = title(name, false);
        out.append(t.as_str());
        out.append("\n");
    }
    assert(out@ == start + head_text(name@, is_root, views[0]));
    let ghost head = start + head_text(name@, is_root, views[0]);
    let mut section = Section { listing: false, usage: false };
    let ghost body = body_text(name@, is_root, section, views.drop_first());
    let mut i: usize = 1;
    assert(views.skip(1) == views.drop_first());
    while i < all.len()
        invariant
            1 <= i <= all@.len(),
            views == text::texts(all@),
            head + body == out@ + body_text(name@, is_root, section, views.skip(i as int)),
        decreases all@.len() - i,
    {
        proof {
            lemma_body_step(out@, name@, is_root, section, views.skip(i as int));
            assert(views.skip(i as int).drop_first() == views.skip(i + 1));
        }
        write_line(out, name, is_root, section, all[i].as_str());
        section = next_section(section, all[i].as_str());
        i = i + 1;
    }
    assert(body_text(name@, is_root, section, views.skip(i as int)) == Seq::<char>::empty());
    assert(out@ == head + body);
    out.append("\n");
    assert(out@ == start + page_text(*page, is_root));
}

/// How many commands stand under a list of commands.
spec fn count_under(pages: Seq<HelpPage>) -> nat {
    pages_under_all(pages).len()
}

/// Taking the last command off a list and putting its subcommands there leaves the commands
/// that are still to come as they were.
proof fn lemma_under_append(a: Seq<HelpPage>, b: Seq<HelpPage>)
    ensures
        pages_under_all(a + b) == pages_under_all(b) + pages_under_all(a),
    decreases b.len(),
{
    if b.len() == 0 {
        assert(a + b == a);
        assert(pages_under_all(b) + pages_under_all(a) == pages_under_all(a));
    } else {
        let whole = a + b;
        let short = b.subrange(0, b.len() - 1);
        assert(whole.subrange(0, whole.len() - 1) == a + short);
        lemma_under_append(a, short);
        assert(pages_under_all(whole) == pages_under(b[b.len() - 1]) + (pages_under_all(short)
            + pages_under_all(a)));
        assert(pages_under_all(b) == pages_under(b[b.len() - 1]) + pages_under_all(short));
        assert(pages_under_all(whole) == pages_under_all(b) + pages_under_all(a));
    }
}

/// The pages that a list of references refers to.
spec fn referred(stack: Seq<&HelpPage>) -> Seq<HelpPage> {
    stack.map_values(|p: &HelpPage| *p)
}

/// Writes the manual for a command and the commands below it.
pub fn cmd_help_md(root: &HelpPage) -> (r: String)
    requires
        has_help(*root),
    ensures
        r@ == manual_text(*root),
{
    let mut out = "# cargo vet CLI manual\n\n> This manual can be regenerated with `cargo vet help-markdown`\n\n".to_owned();
    let ghost all = pages_under(*root);
    let ghost below = pages_under_all(root.subcommands@);
    assert(all[0] == *root);
    assert forall|i: int| 0 <= i < below.len() implies (#[trigger] below[i]).help@.len() > 0 by {
        assert(all[i + 1] == below[i]);
    }
    write_page(&mut out, root, true);
    let ghost front = intro_text() + page_text(*root, true);
    let mut stack: Vec<&HelpPage> = Vec::new();
    push_all(&mut stack, &root.subcommands);
    assert(referred(stack@) == root.subcommands@);
    while stack.len() > 0
        invariant
            forall|i: int|
                0 <= i < pages_under_all(referred(stack@)).len() ==> (
                #[trigger] pages_under_all(referred(stack@))[i]).help@.len() > 0,
            front + pages_text(below) == out@ + pages_text(pages_under_all(referred(stack@))),
        decreases count_under(referred(stack@)),
    {
        let ghost before = referred(stack@);
        let ghost todo = pages_under_all(before);
        let page = stack.pop().unwrap();
        let ghost rest = referred(stack@);
        proof {
            assert(rest == before.subrange(0, before.len() - 1));
            assert(before[before.len() - 1] == *page);
            assert(todo == pages_under(*page) + pages_under_all(rest)) by {
                reveal_with_fuel(pages_under_all, 2);
            }
            assert(pages_under(*page) == seq![*page] + pages_under_all(page.subcommands@)) by {
                reveal_with_fuel(pages_under, 2);
            }
            assert(todo[0] == *page);
        }
        write_page(&mut out, page, false);
        push_all(&mut stack, &page.subcommands);
        proof {
            assert(referred(stack@) == rest + page.subcommands@);
            lemma_under_append(rest, page.subcommands@);
            let next = pages_under_all(referred(stack@));
            assert(todo == seq![*page] + next);
            assert(todo.drop_first() == next);
            assert forall|i: int| 0 <= i < next.len() implies (#[trigger] next[i]).help@.len()
                > 0 by {
                assert(todo[i + 1] == next[i]);
            }
        }
    }
    assert(pages_text(pages_under_all(referred(stack@))) == Seq::<char>::empty());
    assert(out@ == manual_text(*root));
    out
}

/// Puts the pages of a list on a stack, in order.
fn push_all<'a>(stack: &mut Vec<&'a HelpPage>, pages: &'a Vec<HelpPage>)
    ensures
        referred(final(stack)@) == referred(old(stack)@) + pages@,
{
    let mut i: usize = 0;
    while i < pages.len()
        invariant
            i <= pages@.len(),
            referred(stack@) == referred(old(stack)@) + pages@.take(i as int),
        decreases pages@.len() - i,
    {
        let ghost s0 = stack@;
        stack.push(&pages[i]);
        assert(referred(stack@) == referred(s0).push(pages@[i as int]));
        assert(pages@.take(i + 1) == pages@.take(i as int).push(pages@[i as int]));
        i = i + 1;
    }
    assert(pages@.take(i as int) == pages@);
}

/// The manual begins with the root and leaves no command out: with a command, all its
/// subcommands are among the commands that have a page.
pub proof fn law_every_command_has_a_page(root: HelpPage, k: int, i: int)
    requires
        0 <= k < pages_under(root).len(),
        0 <= i < pages_under(root)[k].subcommands@.len(),
    ensures
        pages_under(root)[0] == root,
        pages_under(root).contains(pages_under(root)[k].subcommands@[i]),
    decreases root,
{
    let below = pages_under_all(root.subcommands@);
    let all = pages_under(root);
    assert(all == seq![root] + below);
    if k == 0 {
        lemma_listed_has_page(root.subcommands@, i);
        let j = choose|j: int| 0 <= j < below.len() && below[j] == root.subcommands@[i];
        assert(all[j + 1] == root.subcommands@[i]);
    } else {
        assert(all[k] == below[k - 1]);
        lemma_all_have_pages(root.subcommands@, k - 1, i);
        let sub = below[k - 1].subcommands@[i];
        let j = choose|j: int| 0 <= j < below.len() && below[j] == sub;
        assert(all[j + 1] == sub);
    }
}

/// Every command of a list is among the commands under the list.
proof fn lemma_listed_has_page(pages: Seq<HelpPage>, i: int)
    requires
        0 <= i < pages.len(),
    ensures
        pages_under_all(pages).contains(pages[i]),
    decreases pages.len(),
{
    let n = pages.len() - 1;
    let last = pages_under(pages[n]);
    let rest = pages.subrange(0, n);
    let all = pages_under_all(pages);
    assert(all == last + pages_under_all(rest)) by {
        reveal_with_fuel(pages_under_all, 2);
    }
    assert(last[0] == pages[n]) by {
        reveal_with_fuel(pages_under, 2);
    }
    if i == n {
        assert(all[0] == pages[i]);
    } else {
        lemma_listed_has_page(rest, i);
        let more = pages_under_all(rest);
        let j = choose|j: int| 0 <= j < more.len() && more[j] == rest[i];
        assert(all[last.len() + j] == pages[i]);
    }
}

/// With a command under a list, all its subcommands are under the list.
proof fn lemma_all_have_pages(pages: Seq<HelpPage>, k: int, i: int)
    requires
        0 <= k < pages_under_all(pages).len(),
        0 <= i < pages_under_all(pages)[k].subcommands@.len(),
    ensures
        pages_under_all(pages).contains(pages_under_all(pages)[k].subcommands@[i]),
    decreases pages,
{
    let n = pages.len() - 1;
    let all = pages_under_all(pages);
    let last = pages_under(pages[n]);
    let rest = pages.subrange(0, n);
    let more = pages_under_all(rest);
    assert(all == last + more) by {
        reveal_with_fuel(pages_under_all, 2);
    }
    let sub = all[k].subcommands@[i];
    if k < last.len() {
        assert(all[k] == last[k]);
        law_every_command_has_a_page(pages[n], k, i);
        let j = choose|j: int| 0 <= j < last.len() && last[j] == sub;
        assert(all[j] == sub);
    } else {
        assert(all[k] == more[k - last.len()]);
        lemma_all_have_pages(rest, k - last.len(), i);
        let j = choose|j: int| 0 <= j < more.len() && more[j] == sub;
        assert(all[last.len() + j] == sub);
    }
}

/// `part` stands in `whole`.
pub open spec fn holds(whole: Seq<char>, part: Seq<char>) -> bool {
    exists|a: Seq<char>, b: Seq<char>| whole == #[trigger] (a + part + b)
}

/// The page of every command stands in the manual, whole.
pub proof fn law_manual_holds_every_page(root: HelpPage, k: int)
    requires
        0 <= k < pages_under(root).len(),
    ensures
        holds(manual_text(root), page_text(pages_under(root)[k], k == 0)),
{
    let below = pages_under_all(root.subcommands@);
    assert(pages_under(root) == seq![root] + below);
    let front = intro_text() + page_text(root, true);
    if k == 0 {
        assert(manual_text(root) == intro_text() + page_text(root, true) + pages_text(below));
    } else {
        lemma_text_holds_page(below, k - 1);
        let page = page_text(below[k - 1], false);
        let (a, b) = choose|a: Seq<char>, b: Seq<char>|
            pages_text(below) == #[trigger] (a + page + b);
        assert(front + (a + page + b) == (front + a) + page + b);
        assert(manual_text(root) == (front + a) + page + b);
    }
}

proof fn lemma_text_holds_page(pages: Seq<HelpPage>, k: int)
    requires
        0 <= k < pages.len(),
    ensures
        holds(pages_text(pages), page_text(pages[k], false)),
    decreases pages.len(),
{
    let first = page_text(pages[0], false);
    let rest = pages.drop_first();
    let page = page_text(pages[k], false);
    if k == 0 {
        let a = Seq::<char>::empty();
        assert(pages_text(pages) == a + page + pages_text(rest));
    } else {
        lemma_text_holds_page(rest, k - 1);
        assert(rest[k - 1] == pages[k]);
        let (a, b) = choose|a: Seq<char>, b: Seq<char>| pages_text(rest) == #[trigger] (a + page + b);
        assert(first + (a + page + b) == (first + a) + page + b);
        assert(pages_text(pages) == (first + a) + page + b);
    }
}

/// A line that ends with a colon and begins with no space is a heading. One without small letters
/// begins a section and names the command, unless that is the root; any other leaves the section
/// as it is.
pub proof fn law_headings(name: Seq<char>, is_root: bool, section: Section, words: Seq<char>)
    requires
        words.len() == 0 || words[0] != ' ',
    ensures
        ({
            let line = words.push(':');
            let capitals = forall|i: int|
                0 <= i < words.len() ==> !('a' <= #[trigger] words[i] <= 'z');
            let after = section_after(section, line);
            &&& capitals && is_root ==> line_text(name, is_root, section, line) == "### "@ + words
                + "\n"@
            &&& capitals && !is_root ==> line_text(name, is_root, section, line) == "### "@ + (
            "cargo vet "@ + name + " "@) + words + "\n"@
            &&& !capitals ==> line_text(name, is_root, section, line) == "### "@ + words + "\n"@
                && after == section
            &&& capitals ==> after.listing == (words == "SUBCOMMANDS"@) && after.usage == (words
                == "USAGE"@)
        }),
{
    let line = words.push(':');
    assert(line.drop_last() == words);
    if words.len() > 0 {
        assert(line[0] == words[0]);
    }
    if is_root {
        assert("### "@ + Seq::<char>::empty() + words == "### "@ + words);
    }
    assert(screams(words) == forall|i: int|
        0 <= i < words.len() ==> !('a' <= #[trigger] words[i] <= 'z'));
}

/// A line that is no heading leaves the section as it is. In a list of subcommands one that is
/// not deeply indented is the name of a command, and becomes a link to its page. In the usage one
/// that begins with the name of the command is shown as code, with the program before it unless
/// the command is the root. Of the others, arguments become headings, values in brackets are
/// escaped, and what is left stays as it is but for the indent.
pub proof fn law_other_lines(name: Seq<char>, is_root: bool, section: Section, line: Seq<char>)
    requires
        line.len() == 0 || line.last() != ':' || line[0] == ' ',
    ensures
        ({
            let t = text::trimmed(line);
            let out = line_text(name, is_root, section, line);
            let indent = "     "@;
            let entry = section.listing && !(line.len() >= 5 && line.take(5) == indent);
            let usage = section.usage && t.len() >= name.len() && t.take(name.len() as int) == name;
            &&& section_after(section, line) == section
            &&& entry ==> out == "* ["@ + t + "](#cargo-vet-"@ + t + "): "@
            &&& !entry && usage && is_root ==> out == "```\n"@ + t + "\n```\n"@
            &&& !entry && usage && !is_root ==> out == "```\ncargo vet "@ + t + "\n```\n"@
            &&& !entry && !usage && t.len() > 0 && (t[0] == '-' || t[0] == '<') ==> out == "#### `"@
                + t + "`\n"@
            &&& !entry && !usage && t.len() > 0 && t[0] == '[' ==> out == "\\"@ + t + "  \n"@
            &&& !entry && !usage && (t.len() == 0 || (t[0] != '-' && t[0] != '<' && t[0] != '['))
                ==> out == t + "\n"@
        }),
{
    reveal_strlit("     ");
}

/// The lines of a help are written one after the other, each in the section that the lines
/// before it lead to.
pub proof fn law_lines_are_written_in_order(
    name: Seq<char>,
    is_root: bool,
    section: Section,
    a: Seq<Seq<char>>,
    line: Seq<char>,
)
    ensures
        body_text(name, is_root, section, seq![]).len() == 0,
        body_text(name, is_root, section, seq![line] + a) == line_text(
            name,
            is_root,
            section,
            line,
        ) + body_text(name, is_root, section_after(section, line), a),
{
    assert((seq![line] + a).drop_first() == a);
    assert((seq![line] + a)[0] == line);
}

/// A page begins with the version line, or for a command that is not the root with some space and
/// its name; then come all other lines of the help, and an empty line.
pub proof fn law_pages_hold_their_help(page: HelpPage, first: Seq<char>, rest: Seq<Seq<char>>)
    requires
        text::lines_of(page.help@) == seq![first] + rest,
    ensures
        page_text(page, true) == "Version: `"@ + first + "`\n\n"@ + body_text(
            page.name@,
            true,
            (Section { listing: false, usage: false }),
            rest,
        ) + "\n"@,
        page_text(page, false) == "<br><br><br>\n## "@ + ("cargo vet "@ + page.name@ + " "@) + "\n"@
            + body_text(
            page.name@,
            false,
            (Section { listing: false, usage: false }),
            rest,
        ) + "\n"@,
{
    let all = seq![first] + rest;
    assert(all[0] == first);
    assert(all.drop_first() == rest);
}

/// The manual begins with its title, then comes the page of the root, and then those of all other
/// commands; the commands of a list come after one another, the last of the list first, each
/// before the commands below it.
pub proof fn law_manual_goes_through_all_commands(
    root: &HelpPage,
    r: String,
    page: HelpPage,
    before: Seq<HelpPage>,
    more: Seq<HelpPage>,
)
    requires
        call_ensures(cmd_help_md, (root,), r),
    ensures
        r@
            == "# cargo vet CLI manual\n\n> This manual can be regenerated with `cargo vet help-markdown`\n\n"@
            + page_text(*root, true) + pages_text(pages_under_all(root.subcommands@)),
        pages_under_all(before.push(page)) == seq![page] + pages_under_all(page.subcommands@)
            + pages_under_all(before),
        pages_under_all(Seq::<HelpPage>::empty()).len() == 0,
        pages_text(seq![page] + more) == page_text(page, false) + pages_text(more),
        pages_text(Seq::<HelpPage>::empty()).len() == 0,
{
    let list = before.push(page);
    assert(list.subrange(0, list.len() - 1) == before);
    assert(list[list.len() - 1] == page);
    assert(pages_under_all(list) == pages_under(page) + pages_under_all(before)) by {
        reveal_with_fuel(pages_under_all, 2);
    }
    assert(pages_under(page) == seq![page] + pages_under_all(page.subcommands@)) by {
        reveal_with_fuel(pages_under, 2);
    }
    assert((seq![page] + more).drop_first() == more);
    assert((seq![page] + more)[0] == page);
}

} // verus!
