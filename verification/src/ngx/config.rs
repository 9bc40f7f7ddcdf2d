//! The server configuration: version pins.

use crate::ngx::feature::{supported_dir, Feature};
use crate::text::{index_of, lemma_index_of, lemma_index_of_is, lemma_split_cons, lemma_split_none};
use crate::text::{after_prefix, chars_of, lower_spec, runs, split, split_once};
use crate::text::{split_once_spec, split_spec, strip_prefix, text_of, to_lower, to_upper};
use crate::text::{trim, trim_spec, upper_spec};
use vstd::prelude::*;
use vstd::slice::slice_subrange;

verus! {

/// What a version pin says.
pub struct PinModel {
    pub dir: Seq<char>,
    pub app_id: Seq<char>,
    pub version: Seq<char>,
}

/// A version pin from `nvngx_server_config.txt`, e.g. `[dlss] app_E658700 = 310.9.0`.
#[derive(Debug)]
pub struct ConfigPin {
    pub feature: Feature,
    pub app_id: String,
    pub version: String,
}

impl View for ConfigPin {
    type V = PinModel;

    open spec fn view(&self) -> PinModel {
        PinModel { dir: self.feature@, app_id: self.app_id@, version: self.version@ }
    }
}

/// What a list of pins says.
pub open spec fn pin_models(v: Seq<ConfigPin>) -> Seq<PinModel> {
    v.map_values(|p: ConfigPin| p@)
}

/// The section that a trimmed line opens: `[<section>]`, in any letter case.
pub open spec fn section_of(line: Seq<char>) -> Option<Seq<char>> {
    if line.len() >= 2 && line[0] == '[' && line.last() == ']' {
        Some(lower_spec(line.subrange(1, line.len() - 1)))
    } else {
        None
    }
}

/// The pin that a trimmed line in `section` states: `app_<id> = <version>`,
/// in the section of a supported feature.
pub open spec fn pin_of(section: Seq<char>, line: Seq<char>) -> Option<PinModel> {
    if supported_dir(section) {
        match split_once_spec(line, '=') {
            Some((key, value)) => match after_prefix(trim_spec(key), "app_"@) {
                Some(app) => Some(
                    PinModel {
                        dir: section,
                        app_id: upper_spec(trim_spec(app)),
                        version: trim_spec(value),
                    },
                ),
                None => None,
            },
            None => None,
        }
    } else {
        None
    }
}

/// The pins that the lines state, the first of them standing in `section`.
pub open spec fn pins_of_lines(lines: Seq<Seq<char>>, section: Seq<char>) -> Seq<PinModel>
    decreases lines.len(),
{
    if lines.len() == 0 {
        seq![]
    } else {
        let line = trim_spec(lines[0]);
        match section_of(line) {
            Some(opened) => pins_of_lines(lines.skip(1), opened),
            None => match pin_of(section, line) {
                Some(pin) => seq![pin] + pins_of_lines(lines.skip(1), section),
                None => pins_of_lines(lines.skip(1), section),
            },
        }
    }
}

/// The pins that a configuration text states. White space round a line does
/// not count, so lines may end in `\r\n` as well.
pub open spec fn config_spec(text: Seq<char>) -> Seq<PinModel> {
    pins_of_lines(split_spec(text, '\n'), seq![])
}

/// The pin that a trimmed line in `section` states.
fn read_pin(section: &str, line: &[char]) -> (r: Option<ConfigPin>)
    ensures
        match r {
            Some(pin) => pin_of(section@, line@) == Some(pin@),
            None => pin_of(section@, line@) is None,
        },
{
    let feature = match Feature::from_dir(section) {
        Some(f) => f,
        None => return None,
    };
    let (key, value) = match split_once(line, '=') {
        Some(parts) => parts,
        None => return None,
    };
    let prefix = chars_of("app_");
    match strip_prefix(trim(key), prefix.as_slice()) {
        Some(app) => Some(
            ConfigPin { feature, app_id: to_upper(trim(app)), version: text_of(trim(value)) },
        ),
        None => None,
    }
}

/// The version pins of a configuration text, for the supported features.
pub fn parse_server_config(text: &str) -> (r: Vec<ConfigPin>)
    ensures
        pin_models(r@) == config_spec(text@),
{
    let cs = chars_of(text);
    let lines = split(cs.as_slice(), '\n');
    let ghost all = runs(lines@);
    let mut out: Vec<ConfigPin> = Vec::new();
    let mut section = String::new();
    let mut i: usize = 0;
    assert(all.skip(0) =~= all);
    assert(pin_models(out@) + config_spec(text@) =~= config_spec(text@));
    assert(section@ =~= seq![]);
    while i < lines.len()
        invariant
            i <= lines@.len(),
            all == runs(lines@),
            pin_models(out@) + pins_of_lines(all.skip(i as int), section@) == config_spec(text@),
        decreases lines@.len() - i,
    {
        let ghost here = all.skip(i as int);
        let ghost before = pin_models(out@);
        assert(here[0] == lines@[i as int]@);
        assert(here.skip(1) =~= all.skip(i + 1));
        let line = trim(lines[i]);
        if line.len() >= 2 && line[0] == '[' && line[line.len() - 1] == ']' {
            section = to_lower(slice_subrange(line, 1, line.len() - 1));
        } else {
            match read_pin(section.as_str(), line) {
                Some(pin) => {
                    out.push(pin);
                    assert(pin_models(out@) =~= before + seq![pin@]);
                    assert(pin_models(out@) + pins_of_lines(all.skip(i + 1), section@) =~= before
                        + pins_of_lines(here, section@));
                },
                None => {},
            }
        }
        i = i + 1;
    }
    assert(pin_models(out@) + pins_of_lines(all.skip(i as int), section@) =~= pin_models(out@));
    out
}

// ---------------------------------------------------------------------------
// Laws
// ---------------------------------------------------------------------------

/// The section in force behind some lines.
pub open spec fn section_behind(lines: Seq<Seq<char>>, section: Seq<char>) -> Seq<char>
    decreases lines.len(),
{
    if lines.len() == 0 {
        section
    } else {
        match section_of(trim_spec(lines[0])) {
            Some(opened) => section_behind(lines.skip(1), opened),
            None => section_behind(lines.skip(1), section),
        }
    }
}

/// Lines behind lines.
proof fn lemma_pins_behind(a: Seq<Seq<char>>, b: Seq<Seq<char>>, section: Seq<char>)
    ensures
        pins_of_lines(a + b, section) == pins_of_lines(a, section) + pins_of_lines(
            b,
            section_behind(a, section),
        ),
        section_behind(a + b, section) == section_behind(b, section_behind(a, section)),
    decreases a.len(),
{
    if a.len() == 0 {
        assert(a + b =~= b);
        assert(pins_of_lines(a, section) =~= Seq::<PinModel>::empty());
        assert(pins_of_lines(a + b, section) =~= pins_of_lines(a, section) + pins_of_lines(
            b,
            section,
        ));
    } else {
        assert((a + b).skip(1) =~= a.skip(1) + b);
        assert((a + b)[0] == a[0]);
        let line = trim_spec(a[0]);
        match section_of(line) {
            Some(opened) => {
                lemma_pins_behind(a.skip(1), b, opened);
            },
            None => {
                lemma_pins_behind(a.skip(1), b, section);
                assert(pins_of_lines(a + b, section) =~= pins_of_lines(a, section) + pins_of_lines(
                    b,
                    section_behind(a, section),
                ));
            },
        }
    }
}

/// The lines of a text behind a text.
proof fn lemma_lines_behind(t: Seq<char>, u: Seq<char>)
    ensures
        split_spec(t + seq!['\n'] + u, '\n') == split_spec(t, '\n') + split_spec(u, '\n'),
    decreases t.len(),
{
    lemma_index_of(t, '\n');
    let i = index_of(t, '\n');
    let whole = t + seq!['\n'] + u;
    if i < t.len() {
        let a = t.take(i);
        let rest = t.skip(i + 1);
        assert(t =~= a + seq!['\n'] + rest);
        assert(!a.contains('\n'));
        lemma_lines_behind(rest, u);
        assert(whole =~= a + seq!['\n'] + (rest + seq!['\n'] + u));
        lemma_split_cons(a, '\n', rest + seq!['\n'] + u);
        lemma_split_cons(a, '\n', rest);
        assert(split_spec(whole, '\n') =~= split_spec(t, '\n') + split_spec(u, '\n'));
    } else {
        assert(!t.contains('\n'));
        lemma_split_none(t, '\n');
        lemma_split_cons(t, '\n', u);
    }
}

/// A line, which may have white space round it, that opens no section.
pub open spec fn no_header(line: Seq<char>) -> bool {
    let t = trim_spec(line);
    t.len() < 2 || t[0] != '[' || t.last() != ']'
}

/// Lines that open no section leave the one in force.
proof fn lemma_no_header(lines: Seq<Seq<char>>, section: Seq<char>)
    requires
        forall|i: int| 0 <= i < lines.len() ==> no_header(#[trigger] lines[i]),
    ensures
        section_behind(lines, section) == section,
    decreases lines.len(),
{
    if lines.len() > 0 {
        assert(no_header(lines[0]));
        assert forall|i: int| 0 <= i < lines.skip(1).len() implies no_header(
            #[trigger] lines.skip(1)[i],
        ) by {
            assert(lines.skip(1)[i] == lines[i + 1]);
        }
        lemma_no_header(lines.skip(1), section);
    }
}

/// One line alone.
proof fn lemma_one_line(line: Seq<char>, section: Seq<char>)
    ensures
        section_of(trim_spec(line)) is Some || pin_of(section, trim_spec(line)) is None
            ==> pins_of_lines(seq![line], section) == Seq::<PinModel>::empty(),
{
    let none = Seq::<Seq<char>>::empty();
    assert(seq![line].skip(1) =~= none);
    assert(pins_of_lines(none, section) =~= Seq::<PinModel>::empty());
    if section_of(trim_spec(line)) is Some {
        let opened = section_of(trim_spec(line))->0;
        assert(pins_of_lines(none, opened) =~= Seq::<PinModel>::empty());
    }
}

/// A pin line states a pin of the feature in whose section it stands, however
/// many other lines stand between: behind any text, a line `[<name>]` and any
/// lines that open no section, a line `app_<id> = <version>` adds just this
/// pin, if the name, in small letters, is a supported feature, and else
/// nothing. White space round the lines and round their parts does not count.
pub proof fn law_pin_line(
    text: Seq<char>,
    header: Seq<char>,
    between: Seq<char>,
    line: Seq<char>,
    name: Seq<char>,
    key: Seq<char>,
    app: Seq<char>,
    version: Seq<char>,
)
    requires
        !header.contains('\n'),
        trim_spec(header) == seq!['['] + name + seq![']'],
        forall|i: int|
            0 <= i < split_spec(between, '\n').len() ==> no_header(
                #[trigger] split_spec(between, '\n')[i],
            ),
        !line.contains('\n'),
        no_header(line),
        !key.contains('='),
        trim_spec(line) == key + seq!['='] + version,
        trim_spec(key) == "app_"@ + app,
    ensures
        ({
            let before = text + seq!['\n'] + (header + seq!['\n'] + between);
            config_spec(before + seq!['\n'] + line) == (if supported_dir(lower_spec(name)) {
                config_spec(before).push(
                    PinModel {
                        dir: lower_spec(name),
                        app_id: upper_spec(trim_spec(app)),
                        version: trim_spec(version),
                    },
                )
            } else {
                config_spec(before)
            })
        }),
{
    let before = text + seq!['\n'] + (header + seq!['\n'] + between);
    let none = Seq::<char>::empty();
    let lines = split_spec(before, '\n');
    let front = split_spec(text, '\n');
    let mid = split_spec(between, '\n');
    lemma_lines_behind(before, line);
    lemma_split_none(line, '\n');
    lemma_lines_behind(text, header + seq!['\n'] + between);
    lemma_split_cons(header, '\n', between);
    let h = trim_spec(header);
    assert(h.subrange(1, h.len() - 1) =~= name);
    assert(section_of(h) == Some(lower_spec(name)));
    lemma_pins_behind(lines, seq![line], none);
    lemma_pins_behind(front, seq![header] + mid, none);
    lemma_pins_behind(seq![header], mid, section_behind(front, none));
    assert(seq![header].skip(1) =~= Seq::<Seq<char>>::empty());
    assert(section_behind(seq![header], section_behind(front, none)) == lower_spec(name)) by {
        assert(section_behind(Seq::<Seq<char>>::empty(), lower_spec(name)) == lower_spec(name));
    }
    lemma_no_header(mid, lower_spec(name));
    let section = lower_spec(name);
    assert(section_behind(lines, none) == section);
    let t = trim_spec(line);
    assert(section_of(t) is None);
    assert forall|j: int| 0 <= j < key.len() implies t[j] != '=' by {
        assert(key.contains(key[j]));
    }
    lemma_index_of_is(t, '=', key.len() as int);
    assert(t.take(key.len() as int) =~= key);
    assert(t.skip(key.len() as int + 1) =~= version);
    let k = trim_spec(key);
    assert(k.take("app_"@.len() as int) =~= "app_"@);
    assert("app_"@.is_prefix_of(k));
    assert(k.skip("app_"@.len() as int) =~= app);
    assert(seq![line].skip(1) =~= Seq::<Seq<char>>::empty());
    assert(pins_of_lines(Seq::<Seq<char>>::empty(), section) =~= Seq::<PinModel>::empty());
    let one = pins_of_lines(seq![line], section);
    if supported_dir(section) {
        let pin = PinModel {
            dir: section,
            app_id: upper_spec(trim_spec(app)),
            version: trim_spec(version),
        };
        assert(pin_of(section, t) == Some(pin));
        assert(one =~= seq![pin]);
        assert(config_spec(before) + one =~= config_spec(before).push(pin));
    } else {
        assert(one =~= Seq::<PinModel>::empty());
        assert(config_spec(before) + one =~= config_spec(before));
    }
}

/// Any other line adds no pin: one that opens a section, one without `=`, one
/// whose key does not begin with `app_`. Nor does a line before the first
/// section. An empty line in front changes nothing.
pub proof fn law_other_line(text: Seq<char>, line: Seq<char>)
    requires
        !line.contains('\n'),
    ensures
        !no_header(line) || !trim_spec(line).contains('=') ==> config_spec(
            text + seq!['\n'] + line,
        ) == config_spec(text),
        forall|key: Seq<char>, value: Seq<char>| #[trigger]
            (key + seq!['='] + value) == trim_spec(line) && !key.contains('=') && !"app_"@.is_prefix_of(
                trim_spec(key),
            ) ==> config_spec(text + seq!['\n'] + line) == config_spec(text),
        (forall|i: int|
            0 <= i < split_spec(text, '\n').len() ==> no_header(
                #[trigger] split_spec(text, '\n')[i],
            )) ==> config_spec(text).len() == 0,
        config_spec(seq!['\n'] + text) == config_spec(text),
{
    let none = Seq::<char>::empty();
    let lines = split_spec(text, '\n');
    let t = trim_spec(line);
    let section = section_behind(lines, none);
    lemma_lines_behind(text, line);
    lemma_split_none(line, '\n');
    lemma_pins_behind(lines, seq![line], none);
    lemma_one_line(line, section);
    lemma_one_line(none, none);
    let one = pins_of_lines(seq![line], section);
    if pin_of(section, t) is None {
        assert(one =~= Seq::<PinModel>::empty());
        assert(config_spec(text) + one =~= config_spec(text));
    }
    if !no_header(line) {
        assert(one =~= Seq::<PinModel>::empty());
        assert(config_spec(text) + one =~= config_spec(text));
    }
    lemma_index_of(t, '=');
    if !t.contains('=') {
        if index_of(t, '=') < t.len() {
            assert(t.contains(t[index_of(t, '=')]));
        }
        assert(pin_of(section, t) is None);
    }
    assert forall|key: Seq<char>, value: Seq<char>| #[trigger]
        (key + seq!['='] + value) == t && !key.contains('=') && !"app_"@.is_prefix_of(
            trim_spec(key),
        ) implies config_spec(text + seq!['\n'] + line) == config_spec(text) by {
        assert forall|j: int| 0 <= j < key.len() implies t[j] != '=' by {
            assert(key.contains(key[j]));
        }
        lemma_index_of_is(t, '=', key.len() as int);
        assert(t.take(key.len() as int) =~= key);
        assert(pin_of(section, t) is None);
    }
    if forall|i: int| 0 <= i < lines.len() ==> no_header(#[trigger] lines[i]) {
        lemma_no_pins(lines);
    }
    lemma_lines_behind(none, text);
    assert(none + seq!['\n'] + text =~= seq!['\n'] + text);
    lemma_split_none(none, '\n');
    lemma_pins_behind(seq![none], lines, none);
    assert(seq![none].skip(1) =~= Seq::<Seq<char>>::empty());
    assert(trim_spec(none) =~= none);
    assert(!supported_dir(none)) by {
        reveal_strlit("sl_sdk");
        reveal_strlit("dlss");
    }
    assert(pins_of_lines(seq![none], none) =~= Seq::<PinModel>::empty());
    assert(section_behind(seq![none], none) == none) by {
        assert(section_behind(Seq::<Seq<char>>::empty(), none) == none);
    }
    assert(Seq::<PinModel>::empty() + config_spec(text) =~= config_spec(text));
}

/// Without a section there are no pins.
proof fn lemma_no_pins(lines: Seq<Seq<char>>)
    requires
        forall|i: int| 0 <= i < lines.len() ==> no_header(#[trigger] lines[i]),
    ensures
        pins_of_lines(lines, Seq::<char>::empty()).len() == 0,
    decreases lines.len(),
{
    if lines.len() > 0 {
        assert(no_header(lines[0]));
        assert forall|i: int| 0 <= i < lines.skip(1).len() implies no_header(
            #[trigger] lines.skip(1)[i],
        ) by {
            assert(lines.skip(1)[i] == lines[i + 1]);
        }
        lemma_no_pins(lines.skip(1));
        assert(!supported_dir(Seq::<char>::empty())) by {
            reveal_strlit("sl_sdk");
            reveal_strlit("dlss");
        }
    }
}

} // verus!
