//! Config file formats: which one a file is in, and how its text is laid out.

use vstd::prelude::*;
use crate::text;

verus! {

/// The three interchangeable config encodings. `.yaml` and `.yml` share one variant.
#[derive(Debug, Clone, Copy, PartialEq, Eq, Structural)]
pub enum ConfigFormat {
    /// TOML.
    Toml,
    /// YAML.
    Yml,
    /// JSON.
    Json,
}

/// The format that a file name announces.
pub open spec fn format_of(path: Seq<char>) -> ConfigFormat {
    if ".toml"@.is_suffix_of(path) {
        ConfigFormat::Toml
    } else if ".yml"@.is_suffix_of(path) || ".yaml"@.is_suffix_of(path) {
        ConfigFormat::Yml
    } else {
        ConfigFormat::Json
    }
}

impl ConfigFormat {
    /// Picks the format from a config file name.
    pub fn from_path(path: &str) -> (r: Self)
        ensures
            r == format_of(path@),
    {
        if text::ends_with(path, ".toml") {
            ConfigFormat::Toml
        } else if text::ends_with(path, ".yml") || text::ends_with(path, ".yaml") {
            ConfigFormat::Yml
        } else {
            ConfigFormat::Json
        }
    }
}

/// The whitespace unit used to indent a document.
#[derive(Debug, Clone, PartialEq, Eq)]
pub struct Indent {
    unit: String,
}

impl View for Indent {
    type V = Seq<char>;

    closed spec fn view(&self) -> Seq<char> {
        self.unit@
    }
}

/// The indentation of one line: how many spaces or tabs it begins with.
#[derive(Debug, Clone, Copy, PartialEq, Eq, Structural)]
pub struct Lead {
    /// Spaces rather than tabs.
    pub space: bool,
    /// How many.
    pub size: usize,
}

/// How often one change of indentation was seen, and how many lines kept to it.
#[derive(Debug, Clone, Copy, PartialEq, Eq, Structural)]
pub struct Tally {
    /// Spaces rather than tabs.
    pub space: bool,
    /// By how many the indentation changed.
    pub amount: usize,
    /// How many lines speak for it.
    pub used: u64,
    /// How many of them kept the indentation of the line before.
    pub weight: u64,
}

/// Where the scan of a document stands.
pub ghost struct Scan {
    /// The size of the last indented line's indentation.
    pub size: int,
    /// What the last line was indented with.
    pub space: Option<bool>,
    /// The change that lines of unchanged indentation speak for.
    pub key: Option<(bool, int)>,
    /// What was counted so far.
    pub tallies: Seq<Tally>,
}

/// The indentation of a line, `None` where it has none.
pub open spec fn lead_of(line: Seq<char>) -> Option<(bool, int)> {
    if line.len() == 0 {
        None
    } else if line[0] == ' ' {
        Some((true, text::skip_while(line, |c: char| c == ' ', 0)))
    } else if line[0] == '\t' {
        Some((false, text::skip_while(line, |c: char| c == '\t', 0)))
    } else {
        None
    }
}

/// The position at or after `from` of the tally for `key`.
pub open spec fn tally_index(tallies: Seq<Tally>, key: (bool, int), from: int) -> Option<int>
    decreases tallies.len() - from,
{
    if from < 0 || from >= tallies.len() {
        None
    } else if tallies[from].space == key.0 && tallies[from].amount == key.1 {
        Some(from)
    } else {
        tally_index(tallies, key, from + 1)
    }
}

/// The tallies with one more line for `key`.
pub open spec fn counted(tallies: Seq<Tally>, key: (bool, int), weight: int) -> Seq<Tally> {
    match tally_index(tallies, key, 0) {
        Some(i) => tallies.update(
            i,
            Tally {
                used: (tallies[i].used + 1) as u64,
                weight: (tallies[i].weight + weight) as u64,
                ..tallies[i]
            },
        ),
        None => tallies.push(
            Tally { space: key.0, amount: key.1 as usize, used: 1, weight: weight as u64 },
        ),
    }
}

/// The distance between two sizes.
pub open spec fn distance(a: int, b: int) -> int {
    if a >= b {
        a - b
    } else {
        b - a
    }
}

/// The scan after one more line. An unindented line ends the run; a change of indentation is what
/// following lines of the same indentation speak for.
pub open spec fn scanned(scan: Scan, line: Seq<char>, ignore_single_spaces: bool) -> Scan {
    if line.len() == 0 {
        scan
    } else {
        match lead_of(line) {
            None => Scan { size: 0, space: None, ..scan },
            Some((space, size)) => if ignore_single_spaces && space && size == 1 {
                scan
            } else {
                let before = if scan.space == Some(space) {
                    scan.size
                } else {
                    0
                };
                let key = if size == before {
                    scan.key
                } else {
                    Some((space, distance(size, before)))
                };
                Scan {
                    size,
                    space: Some(space),
                    key,
                    tallies: match key {
                        Some(k) => counted(
                            scan.tallies,
                            k,
                            if size == before {
                                1
                            } else {
                                0
                            },
                        ),
                        None => scan.tallies,
                    },
                }
            },
        }
    }
}

/// The scan of the first `n` lines.
pub open spec fn scan_of(lines: Seq<Seq<char>>, ignore_single_spaces: bool, n: int) -> Scan
    decreases n,
{
    if n <= 0 {
        Scan { size: 0, space: None, key: None, tallies: Seq::empty() }
    } else {
        scanned(
            scan_of(lines, ignore_single_spaces, n - 1),
            lines[n - 1],
            ignore_single_spaces,
        )
    }
}

/// Whether tally `a` speaks louder than `b`: more lines, then more weight, then spaces before
/// tabs, then the larger amount.
pub open spec fn louder(a: Tally, b: Tally) -> bool {
    ||| a.used > b.used
    ||| a.used == b.used && a.weight > b.weight
    ||| a.used == b.used && a.weight == b.weight && a.space && !b.space
    ||| a.used == b.used && a.weight == b.weight && a.space == b.space && a.amount > b.amount
}

/// The loudest of the first `n` tallies.
pub open spec fn loudest(tallies: Seq<Tally>, n: int) -> Option<Tally>
    decreases n,
{
    if n <= 0 {
        None
    } else {
        let before = loudest(tallies, n - 1);
        if before is None || louder(tallies[n - 1], before->0) {
            Some(tallies[n - 1])
        } else {
            before
        }
    }
}

/// The indent that most changes of indentation speak for.
pub open spec fn indent_of(document: Seq<char>, ignore_single_spaces: bool) -> Option<Seq<char>> {
    let lines = text::segments(document, '\n');
    let tallies = scan_of(lines, ignore_single_spaces, lines.len() as int).tallies;
    match loudest(tallies, tallies.len() as int) {
        Some(tally) => if tally.amount == 0 {
            None
        } else {
            Some(
                text::repeated(
                    if tally.space {
                        ' '
                    } else {
                        '\t'
                    },
                    tally.amount as nat,
                ),
            )
        },
        None => None,
    }
}

/// The indent of a document: single spaces count only where nothing else is found, and two spaces
/// stand in for no evidence at all.
pub open spec fn detected(document: Seq<char>) -> Seq<char> {
    match indent_of(document, true) {
        Some(unit) => unit,
        None => match indent_of(document, false) {
            Some(unit) => unit,
            None => "  "@,
        },
    }
}

/// The indentation of a line, `None` where it has none.
fn leading_indent(line: &str) -> (r: Option<Lead>)
    ensures
        match r {
            Some(lead) => lead_of(line@) == Some((lead.space, lead.size as int)) && 1 <= lead.size
                <= line@.len(),
            None => lead_of(line@) is None,
        },
{
    let cs = text::chars_of(line);
    if cs.len() == 0 || (cs[0] != ' ' && cs[0] != '\t') {
        return None;
    }
    let c: char = cs[0];
    let ghost same = |x: char| x == c;
    let mut size: usize = 0;
    while size < cs.len() && cs[size] == c
        invariant
            size <= cs@.len(),
            cs@ == line@,
            cs@.len() > 0,
            c == cs@[0],
            same == |x: char| x == c,
            text::skip_while(line@, same, 0) == text::skip_while(line@, same, size as int),
        decreases cs@.len() - size,
    {
        size += 1;
    }
    proof {
        let blank = |x: char| x == ' ';
        let tab = |x: char| x == '\t';
        if c == ' ' {
            assert(same =~= blank);
        } else {
            assert(same =~= tab);
        }
        text::lemma_skip_while(line@, same, 0);
        assert(text::skip_while(line@, same, 0) >= 1);
    }
    Some(Lead { space: c == ' ', size })
}

/// Counts one more line for a change of indentation.
fn count_line(tallies: &mut Vec<Tally>, space: bool, amount: usize, weight: u64, Ghost(seen): Ghost<
    int,
>)
    requires
        weight <= 1,
        0 <= seen < u64::MAX,
        forall|i: int|
            0 <= i < old(tallies)@.len() ==> (#[trigger] old(tallies)@[i]).used <= seen
                && old(tallies)@[i].weight <= seen,
    ensures
        final(tallies)@ == counted(old(tallies)@, (space, amount as int), weight as int),
        forall|i: int|
            0 <= i < final(tallies)@.len() ==> (#[trigger] final(tallies)@[i]).used <= seen + 1
                && final(tallies)@[i].weight <= seen + 1,
{
    let ghost before = tallies@;
    let mut i: usize = 0;
    while i < tallies.len()
        invariant
            i <= tallies@.len(),
            tallies@ == before,
            tally_index(before, (space, amount as int), 0) == tally_index(
                before,
                (space, amount as int),
                i as int,
            ),
        ensures
            i <= tallies@.len(),
            tallies@ == before,
            i < tallies@.len() ==> tally_index(before, (space, amount as int), 0) == Some(i as int),
            i == tallies@.len() ==> tally_index(before, (space, amount as int), 0) is None,
        decreases tallies@.len() - i,
    {
        let held: Tally = tallies[i];
        if held.space == space && held.amount == amount {
            break;
        }
        i += 1;
    }
    if i < tallies.len() {
        let held: Tally = tallies[i];
        tallies[i] = Tally { used: held.used + 1, weight: held.weight + weight, ..held };
    } else {
        tallies.push(Tally { space, amount, used: 1, weight });
    }
}

/// The loudest tally.
fn loudest_of(tallies: &Vec<Tally>) -> (r: Option<Tally>)
    ensures
        r == loudest(tallies@, tallies@.len() as int),
{
    let mut best: Option<Tally> = None;
    let mut i: usize = 0;
    while i < tallies.len()
        invariant
            i <= tallies@.len(),
            best == loudest(tallies@, i as int),
        decreases tallies@.len() - i,
    {
        let a: Tally = tallies[i];
        let wins = match best {
            None => true,
            Some(b) => a.used > b.used || (a.used == b.used && a.weight > b.weight) || (a.used
                == b.used && a.weight == b.weight && a.space && !b.space) || (a.used == b.used
                && a.weight == b.weight && a.space == b.space && a.amount > b.amount),
        };
        if wins {
            best = Some(a);
        }
        i += 1;
    }
    best
}

/// The indent that most changes of indentation speak for: changes between neighbouring lines are
/// tallied, and the most used one wins, ties broken by weight.
fn indents_map(document: &str, ignore_single_spaces: bool) -> (r: Option<Indent>)
    ensures
        match r {
            Some(indent) => indent_of(document@, ignore_single_spaces) == Some(indent@),
            None => indent_of(document@, ignore_single_spaces) is None,
        },
{
    let lines = text::split_on(document, '\n');
    let total: usize = lines.len();
    let ghost views = text::segments(document@, '\n');
    let mut tallies: Vec<Tally> = Vec::new();
    let mut previous_size: usize = 0;
    let mut previous_space: Option<bool> = None;
    let mut key: Option<Lead> = None;
    let mut i: usize = 0;
    while i < lines.len()
        invariant
            i <= lines@.len() == total,
            text::texts(lines@) == views,
            ({
                let scan = scan_of(views, ignore_single_spaces, i as int);
                &&& scan.size == previous_size
                &&& scan.space == previous_space
                &&& scan.key == match key {
                    Some(k) => Some((k.space, k.size as int)),
                    None => None,
                }
                &&& scan.tallies == tallies@
            }),
            forall|j: int|
                0 <= j < tallies@.len() ==> (#[trigger] tallies@[j]).used <= i && tallies@[j].weight
                    <= i,
        decreases lines@.len() - i,
    {
        let line = lines[i].as_str();
        assert(line@ == views[i as int]);
        i += 1;
        if line.is_empty() {
            continue;
        }
        match leading_indent(line) {
            None => {
                previous_size = 0;
                previous_space = None;
            },
            Some(lead) => {
                if ignore_single_spaces && lead.space && lead.size == 1 {
                    continue;
                }
                let same_kind = match previous_space {
                    Some(space) => space == lead.space,
                    None => false,
                };
                let before: usize = if same_kind {
                    previous_size
                } else {
                    0
                };
                let mut weight: u64 = 1;
                if lead.size != before {
                    let change: usize = if lead.size >= before {
                        lead.size - before
                    } else {
                        before - lead.size
                    };
                    key = Some(Lead { space: lead.space, size: change });
                    weight = 0;
                }
                previous_size = lead.size;
                previous_space = Some(lead.space);
                if let Some(k) = key {
                    count_line(&mut tallies, k.space, k.size, weight, Ghost(i - 1));
                }
            },
        }
    }
    match loudest_of(&tallies) {
        Some(tally) => if tally.amount == 0 {
            None
        } else {
            let c: char = if tally.space {
                ' '
            } else {
                '\t'
            };
            Some(Indent { unit: text::repeat(c, tally.amount) })
        },
        None => None,
    }
}

impl Indent {
    /// The default when a file gives no evidence: two spaces.
    pub fn default_two_spaces() -> (r: Self)
        ensures
            r@ == "  "@,
    {
        Indent { unit: "  ".to_owned() }
    }

    /// The indent string, e.g. `"    "` or `"\t"`.
    pub fn as_str(&self) -> (r: &str)
        ensures
            r@ == self@,
    {
        self.unit.as_str()
    }

    /// The width the YAML emitter is given: the characters of the indent, and at least one.
    pub fn width(&self) -> (r: usize)
        ensures
            r == if self@.len() > 1 {
                self@.len() as int
            } else {
                1
            },
    {
        let n: usize = self.unit.as_str().unicode_len();
        if n > 1 {
            n
        } else {
            1
        }
    }

    /// Infers the indent from a document's text.
    pub fn detect(document: &str) -> (r: Self)
        ensures
            r@ == detected(document@),
    {
        match indents_map(document, true) {
            Some(indent) => indent,
            None => match indents_map(document, false) {
                Some(indent) => indent,
                None => Indent::default_two_spaces(),
            },
        }
    }
}

/// The line ending a document closes with, if it closes with one.
pub open spec fn final_newline_spec(document: Seq<char>) -> Seq<char> {
    if "\r\n"@.is_suffix_of(document) {
        "\r\n"@
    } else if "\n"@.is_suffix_of(document) {
        "\n"@
    } else {
        Seq::empty()
    }
}

/// The document's trailing newline, so it can be restored verbatim on write.
pub fn final_newline(document: &str) -> (r: String)
    ensures
        r@ == final_newline_spec(document@),
{
    if text::ends_with(document, "\r\n") {
        "\r\n".to_owned()
    } else if text::ends_with(document, "\n") {
        "\n".to_owned()
    } else {
        String::new()
    }
}

/// No tally is louder than the loudest.
proof fn lemma_loudest(tallies: Seq<Tally>, n: int)
    requires
        0 <= n <= tallies.len(),
    ensures
        match loudest(tallies, n) {
            Some(best) => forall|i: int| 0 <= i < n ==> !louder(#[trigger] tallies[i], best),
            None => n == 0,
        },
    decreases n,
{
    if n > 0 {
        lemma_loudest(tallies, n - 1);
    }
}

/// The indent found does not depend on the order in which changes of indentation were met: nothing
/// counted speaks louder than what was chosen.
pub proof fn the_loudest_indent_wins(document: Seq<char>, ignore_single_spaces: bool)
    ensures
        ({
            let lines = text::segments(document, '\n');
            let tallies = scan_of(lines, ignore_single_spaces, lines.len() as int).tallies;
            match loudest(tallies, tallies.len() as int) {
                Some(best) => forall|i: int|
                    0 <= i < tallies.len() ==> !louder(#[trigger] tallies[i], best),
                None => tallies.len() == 0,
            }
        }),
{
    let lines = text::segments(document, '\n');
    let tallies = scan_of(lines, ignore_single_spaces, lines.len() as int).tallies;
    lemma_loudest(tallies, tallies.len() as int);
}

/// The ending of a path says its format, and any other path is taken for JSON.
pub proof fn the_ending_says_the_format(stem: Seq<char>, path: Seq<char>)
    ensures
        format_of(stem + ".toml"@) == ConfigFormat::Toml,
        format_of(stem + ".yml"@) == ConfigFormat::Yml,
        format_of(stem + ".yaml"@) == ConfigFormat::Yml,
        format_of(stem + ".json"@) == ConfigFormat::Json,
        format_of(path) == ConfigFormat::Toml <==> ".toml"@.is_suffix_of(path),
        format_of(path) == ConfigFormat::Yml <==> ".yml"@.is_suffix_of(path)
            || ".yaml"@.is_suffix_of(path),
{
    reveal_strlit(".toml");
    reveal_strlit(".yml");
    reveal_strlit(".yaml");
    reveal_strlit(".json");
    let n = stem.len() as int;
    let toml = stem + ".toml"@;
    let yml = stem + ".yml"@;
    let yaml = stem + ".yaml"@;
    let json = stem + ".json"@;
    assert(toml.subrange(n, n + 5) =~= ".toml"@);
    assert(yml.subrange(n, n + 4) =~= ".yml"@);
    assert(yaml.subrange(n, n + 5) =~= ".yaml"@);
    assert(toml.last() == 'l' && yml.last() == 'l' && yaml.last() == 'l' && json.last() == 'n');
    if ".toml"@.is_suffix_of(json) {
        lemma_last_agrees(".toml"@, json);
    }
    if ".yml"@.is_suffix_of(json) {
        lemma_last_agrees(".yml"@, json);
    }
    if ".yaml"@.is_suffix_of(json) {
        lemma_last_agrees(".yaml"@, json);
    }
    lemma_toml_is_no_yaml(toml);
    lemma_toml_is_no_yaml(yml);
    lemma_toml_is_no_yaml(yaml);
    lemma_toml_is_no_yaml(path);
}

/// A text ends as its suffix does.
proof fn lemma_last_agrees(suffix: Seq<char>, s: Seq<char>)
    requires
        suffix.len() > 0,
        suffix.is_suffix_of(s),
    ensures
        s.last() == suffix.last(),
{
    let n = s.len() as int;
    let m = suffix.len() as int;
    assert(s.subrange(n - m, n)[m - 1] == suffix[m - 1]);
}

/// No path ends both ways.
proof fn lemma_toml_is_no_yaml(s: Seq<char>)
    ensures
        !(".toml"@.is_suffix_of(s) && ".yml"@.is_suffix_of(s)),
        !(".toml"@.is_suffix_of(s) && ".yaml"@.is_suffix_of(s)),
{
    reveal_strlit(".toml");
    reveal_strlit(".yml");
    reveal_strlit(".yaml");
    let n = s.len() as int;
    if ".toml"@.is_suffix_of(s) {
        assert(s.subrange(n - 5, n)[2] == ".toml"@[2]);
        assert(s.subrange(n - 5, n)[1] == ".toml"@[1]);
        if ".yml"@.is_suffix_of(s) {
            assert(s.subrange(n - 4, n)[1] == ".yml"@[1]);
        }
        if ".yaml"@.is_suffix_of(s) {
            assert(s.subrange(n - 5, n)[1] == ".yaml"@[1]);
        }
    }
}

/// What ends a document is put back as it was: a newline of either kind, or nothing.
pub proof fn a_final_newline_is_kept(body: Seq<char>, document: Seq<char>)
    ensures
        final_newline_spec(body + "\r\n"@) == "\r\n"@,
        (body.len() == 0 || body.last() != '\r') ==> final_newline_spec(body + "\n"@) == "\n"@,
        document.len() == 0 || document.last() != '\n' ==> final_newline_spec(document).len() == 0,
        final_newline_spec(document).is_suffix_of(document),
{
    reveal_strlit("\r\n");
    reveal_strlit("\n");
    let n = body.len() as int;
    let crlf = body + "\r\n"@;
    let lf = body + "\n"@;
    assert(crlf.subrange(n, n + 2) =~= "\r\n"@);
    assert(lf.subrange(n, n + 1) =~= "\n"@);
    if "\r\n"@.is_suffix_of(lf) {
        assert(lf.subrange(n - 1, n + 1)[0] == '\r');
        assert(lf[n - 1] == body[n - 1]);
    }
    if "\r\n"@.is_suffix_of(document) {
        lemma_last_agrees("\r\n"@, document);
    }
    if "\n"@.is_suffix_of(document) {
        lemma_last_agrees("\n"@, document);
    }
    let m = document.len() as int;
    assert(document.subrange(m, m) =~= Seq::<char>::empty());
}

/// Which of two indentations speaks louder: the one more lines speak for; where as many do, the one
/// that more of them kept; then spaces before tabs, and the wider before the narrower.
pub proof fn more_lines_speak_louder(a: Tally, b: Tally)
    ensures
        a.used > b.used ==> louder(a, b) && !louder(b, a),
        a.used == b.used && a.weight > b.weight ==> louder(a, b) && !louder(b, a),
        a.used == b.used && a.weight == b.weight && a.space && !b.space ==> louder(a, b) && !louder(
            b,
            a,
        ),
        a.used == b.used && a.weight == b.weight && a.space == b.space && a.amount > b.amount
            ==> louder(a, b) && !louder(b, a),
        !louder(a, a),
{
}

/// A line is not indented, or indented by `k` spaces or tabs.
pub open spec fn evenly_indented(line: Seq<char>, c: char, k: int) -> bool {
    ||| line.len() == 0
    ||| line[0] != ' ' && line[0] != '\t'
    ||| k <= line.len() && (forall|i: int| 0 <= i < k ==> #[trigger] line[i] == c) && (k < line.len()
        ==> line[k] != c)
}

/// A document whose indented lines are all indented alike is indented like that.
pub proof fn an_even_indent_is_found(document: Seq<char>, c: char, k: int)
    requires
        c == ' ' && 2 <= k || c == '\t' && 1 <= k,
        k <= usize::MAX,
        ({
            let lines = text::segments(document, '\n');
            &&& forall|i: int| 0 <= i < lines.len() ==> evenly_indented(#[trigger] lines[i], c, k)
            &&& exists|i: int|
                0 <= i < lines.len() && (#[trigger] lines[i]).len() > 0 && lines[i][0] == c
        }),
    ensures
        detected(document) == text::repeated(c, k as nat),
{
    let lines = text::segments(document, '\n');
    let n = lines.len() as int;
    let i = choose|i: int| 0 <= i < n && (#[trigger] lines[i]).len() > 0 && lines[i][0] == c;
    lemma_even_scan(lines, c, k, n);
    lemma_even_scan(lines, c, k, i + 1);
    lemma_tallies_stay(lines, true, i + 1, n);
    let tallies = scan_of(lines, true, n).tallies;
    reveal_with_fuel(loudest, 2);
    assert(tallies.len() == 1);
    assert(loudest(tallies, 1) == Some(tallies[0]));
}

/// A document without an indented line is indented by two spaces.
pub proof fn no_indent_is_two_spaces(document: Seq<char>)
    requires
        ({
            let lines = text::segments(document, '\n');
            forall|i: int|
                0 <= i < lines.len() ==> (#[trigger] lines[i]).len() == 0 || (lines[i][0] != ' '
                    && lines[i][0] != '\t')
        }),
    ensures
        detected(document) == "  "@,
{
    let lines = text::segments(document, '\n');
    let n = lines.len() as int;
    lemma_flat_scan(lines, true, n);
    lemma_flat_scan(lines, false, n);
}

/// Lines without indentation are not counted.
proof fn lemma_flat_scan(lines: Seq<Seq<char>>, ignore_single_spaces: bool, n: int)
    requires
        0 <= n <= lines.len(),
        forall|i: int|
            0 <= i < lines.len() ==> (#[trigger] lines[i]).len() == 0 || (lines[i][0] != ' '
                && lines[i][0] != '\t'),
    ensures
        scan_of(lines, ignore_single_spaces, n).tallies.len() == 0,
        scan_of(lines, ignore_single_spaces, n).key is None,
    decreases n,
{
    if n > 0 {
        lemma_flat_scan(lines, ignore_single_spaces, n - 1);
        assert(lines[n - 1].len() == 0 || (lines[n - 1][0] != ' ' && lines[n - 1][0] != '\t'));
    }
}

/// A tally is found where it stands.
proof fn lemma_tally_index(tallies: Seq<Tally>, key: (bool, int), from: int)
    requires
        0 <= from,
    ensures
        tally_index(tallies, key, from) matches Some(i) ==> from <= i < tallies.len(),
    decreases tallies.len() - from,
{
    if from < tallies.len() && !(tallies[from].space == key.0 && tallies[from].amount == key.1) {
        lemma_tally_index(tallies, key, from + 1);
    }
}

/// What was counted stays counted.
proof fn lemma_tallies_stay(lines: Seq<Seq<char>>, ignore_single_spaces: bool, m: int, n: int)
    requires
        0 <= m <= n <= lines.len(),
    ensures
        scan_of(lines, ignore_single_spaces, m).tallies.len() <= scan_of(
            lines,
            ignore_single_spaces,
            n,
        ).tallies.len(),
    decreases n,
{
    if m < n {
        lemma_tallies_stay(lines, ignore_single_spaces, m, n - 1);
        let before = scan_of(lines, ignore_single_spaces, n - 1);
        let after = scan_of(lines, ignore_single_spaces, n);
        assert(after == scanned(before, lines[n - 1], ignore_single_spaces));
        assert forall|key: (bool, int), weight: int|
            (#[trigger] counted(before.tallies, key, weight)).len() >= before.tallies.len() by {
            lemma_tally_index(before.tallies, key, 0);
        }
    }
}

/// Where lines are indented alike, there is one tally, and it is theirs.
proof fn lemma_even_scan(lines: Seq<Seq<char>>, c: char, k: int, n: int)
    requires
        c == ' ' && 2 <= k || c == '\t' && 1 <= k,
        k <= usize::MAX,
        0 <= n <= lines.len(),
        forall|i: int| 0 <= i < lines.len() ==> evenly_indented(#[trigger] lines[i], c, k),
    ensures
        ({
            let scan = scan_of(lines, true, n);
            &&& scan.tallies.len() <= 1
            &&& scan.tallies.len() == 1 ==> scan.tallies[0].space == (c == ' ')
                && scan.tallies[0].amount == k
            &&& scan.space is Some ==> scan.space == Some(c == ' ') && scan.size == k
                && scan.tallies.len() == 1
            &&& scan.key is None || scan.key == Some((c == ' ', k))
            &&& scan.key is None <==> scan.tallies.len() == 0
            &&& n > 0 && lines[n - 1].len() > 0 && lines[n - 1][0] == c ==> scan.tallies.len() == 1
        }),
    decreases n,
{
    if n > 0 {
        lemma_even_scan(lines, c, k, n - 1);
        let before = scan_of(lines, true, n - 1);
        let line = lines[n - 1];
        assert(evenly_indented(line, c, k));
        if line.len() > 0 && (line[0] == ' ' || line[0] == '\t') {
            assert(line[0] == c);
            if c == ' ' {
                text::lemma_skip_to(line, |x: char| x == ' ', 0, k);
            } else {
                text::lemma_skip_to(line, |x: char| x == '\t', 0, k);
            }
            assert(lead_of(line) == Some((c == ' ', k)));
            let key = (c == ' ', k);
            reveal_with_fuel(tally_index, 2);
            assert(counted(before.tallies, key, 0).len() == 1);
            assert(counted(before.tallies, key, 1).len() == 1);
        }
    }
}

/// A line begins with exactly `size` of `c`, and with no other white space that indents.
pub open spec fn indented_by(line: Seq<char>, c: char, size: int) -> bool {
    &&& 0 <= size < line.len()
    &&& forall|i: int| 0 <= i < size ==> #[trigger] line[i] == c
    &&& line[size] != c
    &&& size == 0 ==> line[0] != ' ' && line[0] != '\t'
}

/// How deep the line before the `n`th is indented; the first has none before it.
pub open spec fn depth_before(sizes: Seq<int>, n: int) -> int {
    if 0 < n <= sizes.len() {
        sizes[n - 1]
    } else {
        0
    }
}

/// A document in which each line goes one step in, one step out, or stays, is indented by that step,
/// however deep it gets.
pub proof fn a_step_in_or_out_is_the_indent(
    document: Seq<char>,
    c: char,
    k: int,
    sizes: Seq<int>,
    at: int,
)
    requires
        c == ' ' && 2 <= k || c == '\t' && 1 <= k,
        k <= usize::MAX,
        ({
            let lines = text::segments(document, '\n');
            &&& sizes.len() == lines.len()
            &&& forall|i: int|
                0 <= i < lines.len() ==> indented_by(#[trigger] lines[i], c, sizes[i]) && !(c == ' '
                    && sizes[i] == 1)
            &&& forall|i: int|
                0 <= i < lines.len() ==> {
                    let change = #[trigger] sizes[i] - depth_before(sizes, i);
                    change == 0 || change == k || change == -k
                }
            &&& 0 <= at < lines.len() && sizes[at] > 0
        }),
    ensures
        detected(document) == text::repeated(c, k as nat),
{
    let lines = text::segments(document, '\n');
    let n = lines.len() as int;
    lemma_step_scan(lines, c, k, sizes, n);
    lemma_step_scan(lines, c, k, sizes, at + 1);
    lemma_tallies_stay(lines, true, at + 1, n);
    let tallies = scan_of(lines, true, n).tallies;
    reveal_with_fuel(loudest, 2);
    assert(tallies.len() == 1);
    assert(loudest(tallies, 1) == Some(tallies[0]));
}

/// Where lines go in and out by one step, there is one tally, and it is that step's.
proof fn lemma_step_scan(lines: Seq<Seq<char>>, c: char, k: int, sizes: Seq<int>, n: int)
    requires
        c == ' ' && 2 <= k || c == '\t' && 1 <= k,
        k <= usize::MAX,
        0 <= n <= lines.len(),
        sizes.len() == lines.len(),
        forall|i: int|
            0 <= i < lines.len() ==> indented_by(#[trigger] lines[i], c, sizes[i]) && !(c == ' '
                && sizes[i] == 1),
        forall|i: int|
            0 <= i < lines.len() ==> {
                let change = #[trigger] sizes[i] - depth_before(sizes, i);
                change == 0 || change == k || change == -k
            },
    ensures
        ({
            let scan = scan_of(lines, true, n);
            &&& scan.tallies.len() <= 1
            &&& scan.tallies.len() == 1 ==> scan.tallies[0].space == (c == ' ')
                && scan.tallies[0].amount == k
            &&& scan.size == depth_before(sizes, n)
            &&& scan.size > 0 ==> scan.space == Some(c == ' ') && scan.tallies.len() == 1
            &&& scan.size == 0 ==> scan.space is None
            &&& scan.key is None || scan.key == Some((c == ' ', k))
            &&& scan.key is None <==> scan.tallies.len() == 0
        }),
    decreases n,
{
    if n > 0 {
        lemma_step_scan(lines, c, k, sizes, n - 1);
        let before = scan_of(lines, true, n - 1);
        let line = lines[n - 1];
        let size = sizes[n - 1];
        assert(indented_by(line, c, size));
        let change = size - depth_before(sizes, n - 1);
        assert(change == 0 || change == k || change == -k);
        if size > 0 {
            assert(line[0] == c);
            if c == ' ' {
                text::lemma_skip_to(line, |x: char| x == ' ', 0, size);
            } else {
                text::lemma_skip_to(line, |x: char| x == '\t', 0, size);
            }
            assert(lead_of(line) == Some((c == ' ', size)));
            let key = (c == ' ', k);
            reveal_with_fuel(tally_index, 2);
            assert(counted(before.tallies, key, 0).len() == 1);
            assert(counted(before.tallies, key, 1).len() == 1);
        } else {
            assert(lead_of(line) is None);
        }
    }
}

/// Single spaces count only where nothing else is found: a document whose indented lines all begin with
/// one space is indented by one.
pub proof fn single_spaces_count_alone(document: Seq<char>, at: int)
    requires
        ({
            let lines = text::segments(document, '\n');
            &&& forall|i: int|
                0 <= i < lines.len() ==> indented_by(#[trigger] lines[i], ' ', 0) || indented_by(
                    lines[i],
                    ' ',
                    1,
                )
            &&& 0 <= at < lines.len() && indented_by(lines[at], ' ', 1)
        }),
    ensures
        detected(document) == seq![' '],
{
    let lines = text::segments(document, '\n');
    let n = lines.len() as int;
    lemma_single_scan(lines, n);
    lemma_single_scan(lines, at + 1);
    lemma_tallies_stay(lines, false, at + 1, n);
    let ignored = scan_of(lines, true, n).tallies;
    let tallies = scan_of(lines, false, n).tallies;
    reveal_with_fuel(loudest, 2);
    assert(ignored.len() == 0);
    assert(indent_of(document, true) is None);
    assert(tallies.len() == 1);
    assert(loudest(tallies, 1) == Some(tallies[0]));
    assert(text::repeated(' ', 1) =~= seq![' ']);
}

/// Single spaces are passed over where they are ignored, and are the one tally where they are not.
proof fn lemma_single_scan(lines: Seq<Seq<char>>, n: int)
    requires
        0 <= n <= lines.len(),
        forall|i: int|
            0 <= i < lines.len() ==> indented_by(#[trigger] lines[i], ' ', 0) || indented_by(
                lines[i],
                ' ',
                1,
            ),
    ensures
        scan_of(lines, true, n).tallies.len() == 0,
        scan_of(lines, true, n).key is None,
        ({
            let scan = scan_of(lines, false, n);
            &&& scan.tallies.len() <= 1
            &&& scan.tallies.len() == 1 ==> scan.tallies[0].space && scan.tallies[0].amount == 1
            &&& scan.space is Some ==> scan.space == Some(true) && scan.size == 1
                && scan.tallies.len() == 1
            &&& scan.key is None || scan.key == Some((true, 1int))
            &&& scan.key is None <==> scan.tallies.len() == 0
            &&& n > 0 && indented_by(lines[n - 1], ' ', 1) ==> scan.tallies.len() == 1
        }),
    decreases n,
{
    if n > 0 {
        lemma_single_scan(lines, n - 1);
        let before = scan_of(lines, false, n - 1);
        let line = lines[n - 1];
        if indented_by(line, ' ', 1) {
            assert(line[0] == ' ');
            text::lemma_skip_to(line, |x: char| x == ' ', 0, 1);
            assert(lead_of(line) == Some((true, 1int)));
            reveal_with_fuel(tally_index, 2);
            assert(counted(before.tallies, (true, 1int), 0).len() == 1);
            assert(counted(before.tallies, (true, 1int), 1).len() == 1);
        } else {
            assert(indented_by(line, ' ', 0));
            assert(lead_of(line) is None);
        }
    }
}

} // verus!
