use vstd::prelude::*;

use crate::color::{Rgba, color_of_text, color_text_sliceable, hex_text, lemma_color_hex_roundtrip};
use crate::ini::{
    IniModel, SectionModel, ini_fold, ini_model, ini_step, split_lines, lemma_first_index_of,
};
use crate::settings::{
    applied_settings, config_readable, ini_value, expanded_path,
    SettingsView, PresetView, EnvView, preset_section, join_lines, kv_line, header_line, preset_lines,
    presets_lines, general_lines, stored_presets, settings_text,
};
use crate::text::{
    is_white_space, trim, trim_start, trim_end, first_index_of, decimal, bool_text, u64_of_text,
    lemma_decimal_digits_value, contains_text, lemma_replace_absent,
};

verus! {

/// A value that a settings line holds unchanged: no newline, and no white space at
/// either end.
pub open spec fn plain_text(v: Seq<char>) -> bool {
    &&& forall|i: int| 0 <= i < v.len() ==> #[trigger] v[i] != '\n'
    &&& v.len() > 0 ==> !is_white_space(v[0]) && !is_white_space(v.last())
}

/// The parser state after reading `lines` from the given state.
pub open spec fn ini_run(lines: Seq<Seq<char>>, cur: Seq<char>, acc: IniModel) -> (Seq<char>, IniModel)
    decreases lines.len(),
{
    if lines.len() == 0 {
        (cur, acc)
    } else {
        let (c, a) = ini_step(lines[0], cur, acc);
        ini_run(lines.drop_first(), c, a)
    }
}

proof fn lemma_run_fold(lines: Seq<Seq<char>>, cur: Seq<char>, acc: IniModel)
    ensures
        ini_fold(lines, cur, acc) == ini_run(lines, cur, acc).1,
    decreases lines.len(),
{
    if lines.len() > 0 {
        let (c, a) = ini_step(lines[0], cur, acc);
        lemma_run_fold(lines.drop_first(), c, a);
    }
}

proof fn lemma_run_concat(l1: Seq<Seq<char>>, l2: Seq<Seq<char>>, cur: Seq<char>, acc: IniModel)
    ensures
        ini_run(l1 + l2, cur, acc) == ini_run(l2, ini_run(l1, cur, acc).0, ini_run(l1, cur, acc).1),
    decreases l1.len(),
{
    if l1.len() == 0 {
        assert(l1 + l2 =~= l2);
    } else {
        let (c, a) = ini_step(l1[0], cur, acc);
        assert((l1 + l2).drop_first() =~= l1.drop_first() + l2);
        assert((l1 + l2)[0] == l1[0]);
        lemma_run_concat(l1.drop_first(), l2, c, a);
    }
}

proof fn lemma_run_one(l: Seq<char>, cur: Seq<char>, acc: IniModel)
    ensures
        ini_run(seq![l], cur, acc) == ini_step(l, cur, acc),
{
    let (c, a) = ini_step(l, cur, acc);
    assert(seq![l].drop_first() =~= Seq::<Seq<char>>::empty());
    assert(seq![l][0] == l);
    assert(ini_run(Seq::<Seq<char>>::empty(), c, a) == (c, a));
}

proof fn lemma_first_index_concat(a: Seq<char>, b: Seq<char>, c: char)
    requires
        forall|i: int| 0 <= i < a.len() ==> #[trigger] a[i] != c,
    ensures
        first_index_of(a + b, c) == match first_index_of(b, c) {
            Some(k) => Some(k + a.len()),
            None => None,
        },
    decreases a.len(),
{
    if a.len() == 0 {
        assert(a + b =~= b);
    } else {
        assert((a + b).drop_first() =~= a.drop_first() + b);
        assert((a + b)[0] == a[0]);
        assert forall|i: int| 0 <= i < a.drop_first().len() implies #[trigger] a.drop_first()[i] != c by {
            assert(a.drop_first()[i] == a[i + 1]);
        }
        lemma_first_index_concat(a.drop_first(), b, c);
    }
}

/// A line without newlines, then a newline, is split back into that line.
proof fn lemma_split_join(lines: Seq<Seq<char>>)
    requires
        forall|i: int, j: int| 0 <= i < lines.len() && 0 <= j < lines[i].len() ==> #[trigger] lines[i][j] != '\n',
    ensures
        split_lines(join_lines(lines)) == lines.push(Seq::empty()),
    decreases lines.len(),
{
    if lines.len() == 0 {
        assert(join_lines(lines) == Seq::<char>::empty());
        assert(first_index_of(Seq::<char>::empty(), '\n') is None);
        assert(lines.push(Seq::empty()) =~= seq![Seq::<char>::empty()]);
    } else {
        let a = lines[0];
        let rest = join_lines(lines.drop_first());
        let s = join_lines(lines);
        assert(s =~= a + (seq!['\n'] + rest));
        assert forall|i: int| 0 <= i < a.len() implies #[trigger] a[i] != '\n' by {
            assert(lines[0][i] != '\n');
        }
        lemma_first_index_concat(a, seq!['\n'] + rest, '\n');
        assert((seq!['\n'] + rest)[0] == '\n');
        assert(first_index_of(seq!['\n'] + rest, '\n') == Some(0int));
        assert(s.take(a.len() as int) =~= a);
        assert(s.skip(a.len() as int + 1) =~= rest);
        assert forall|i: int, j: int| 0 <= i < lines.drop_first().len() && 0 <= j < lines.drop_first()[i].len()
            implies #[trigger] lines.drop_first()[i][j] != '\n' by {
            assert(lines.drop_first()[i] == lines[i + 1]);
        }
        lemma_split_join(lines.drop_first());
        assert(seq![a] + lines.drop_first().push(Seq::empty()) =~= lines.push(Seq::empty()));
    }
}

proof fn lemma_trim_fixed(l: Seq<char>)
    requires
        l.len() > 0 ==> !is_white_space(l[0]) && !is_white_space(l.last()),
    ensures
        trim(l) == l,
{
    assert(trim_start(l) == l);
    assert(trim_end(l) == l);
}

/// A key of a settings line: not empty, no `=`, no white space at either end, and
/// not starting like a comment or a section header.
pub open spec fn plain_key(k: Seq<char>) -> bool {
    &&& k.len() > 0
    &&& forall|i: int| 0 <= i < k.len() ==> #[trigger] k[i] != '=' && k[i] != '\n'
    &&& !is_white_space(k[0])
    &&& !is_white_space(k.last())
    &&& k[0] != ';' && k[0] != '#' && k[0] != '['
}

proof fn lemma_kv_step(k: Seq<char>, v: Seq<char>, cur: Seq<char>, acc: IniModel)
    requires
        plain_key(k),
        plain_text(v),
        cur.len() > 0,
        acc.contains_key(cur),
    ensures
        ini_step(kv_line(k, v), cur, acc) == (cur, acc.insert(cur, acc[cur].insert(k, v))),
{
    let l = kv_line(k, v);
    assert(l[0] == k[0]);
    if v.len() > 0 {
        assert(l.last() == v.last());
    } else {
        assert(l.last() == '=');
    }
    lemma_trim_fixed(l);
    assert(l =~= k + (seq!['='] + v));
    lemma_first_index_concat(k, seq!['='] + v, '=');
    assert((seq!['='] + v)[0] == '=');
    assert(first_index_of(seq!['='] + v, '=') == Some(0int));
    assert(l.take(k.len() as int) =~= k);
    assert(l.skip(k.len() as int + 1) =~= v);
    lemma_trim_fixed(k);
    lemma_trim_fixed(v);
}

proof fn lemma_header_step(n: Seq<char>, cur: Seq<char>, acc: IniModel)
    ensures
        ini_step(header_line(n), cur, acc) == (
            n,
            if acc.contains_key(n) { acc } else { acc.insert(n, Map::empty()) },
        ),
{
    let l = header_line(n);
    assert(l[0] == '[');
    assert(l.last() == ']');
    assert(!is_white_space('['));
    assert(!is_white_space(']'));
    lemma_trim_fixed(l);
    assert(l.subrange(1, l.len() - 1) =~= n);
}

proof fn lemma_empty_step(cur: Seq<char>, acc: IniModel)
    ensures
        ini_step(Seq::empty(), cur, acc) == (cur, acc),
{
    assert(trim(Seq::<char>::empty()) =~= Seq::<char>::empty());
}

/// The section that stores preset `p` with its width written as `w`.
pub open spec fn preset_section_map<W>(p: PresetView<W>, w: Seq<char>) -> SectionModel {
    Map::empty().insert("rectangle"@, hex_text(p.rectangle_color)).insert(
        "arrow"@,
        hex_text(p.arrow_color),
    ).insert("text"@, hex_text(p.text_color)).insert("line_width"@, w)
}

/// The sections that store the first `n` presets.
pub open spec fn presets_model<W>(ps: Seq<PresetView<W>>, ws: Seq<Seq<char>>, n: nat) -> IniModel
    decreases n,
{
    if n == 0 {
        Map::empty()
    } else {
        presets_model(ps, ws, (n - 1) as nat).insert(
            preset_section(n - 1),
            preset_section_map(ps[n - 1], ws[n - 1]),
        )
    }
}

/// The `[Output]` section of the settings file.
pub open spec fn output_map<W>(s: SettingsView<W>) -> SectionModel {
    Map::empty().insert("DefaultPath"@, s.output_path).insert("FilePattern"@, s.file_pattern)
}

/// The `[Behavior]` section of the settings file.
pub open spec fn behavior_map<W>(s: SettingsView<W>) -> SectionModel {
    Map::empty().insert("AutoStart"@, bool_text(s.auto_start)).insert(
        "ShowTrayIcon"@,
        bool_text(s.show_tray_icon),
    ).insert("HotkeyEnabled"@, bool_text(s.hotkey_enabled)).insert(
        "CleanupOldFiles"@,
        bool_text(s.cleanup_old_files),
    ).insert("MaxFileAgeHours"@, decimal(s.max_file_age_hours as nat))
}

/// The sections of the settings file for `s`.
pub open spec fn settings_model<W>(s: SettingsView<W>, ws: Seq<Seq<char>>) -> IniModel {
    presets_model(s.presets, ws, stored_presets(s.presets.len())).insert("Output"@, output_map(s)).insert(
        "Behavior"@,
        behavior_map(s),
    )
}

/// The literal names and keys of the settings file, spelled out.
proof fn lemma_literals()
    ensures
        "DarkMode"@ =~= seq!['D', 'a', 'r', 'k', 'M', 'o', 'd', 'e'],
        "LightMode"@ =~= seq!['L', 'i', 'g', 'h', 't', 'M', 'o', 'd', 'e'],
        "Custom1"@ =~= seq!['C', 'u', 's', 't', 'o', 'm', '1'],
        "Custom2"@ =~= seq!['C', 'u', 's', 't', 'o', 'm', '2'],
        "Output"@ =~= seq!['O', 'u', 't', 'p', 'u', 't'],
        "Behavior"@ =~= seq!['B', 'e', 'h', 'a', 'v', 'i', 'o', 'r'],
        "rectangle"@ =~= seq!['r', 'e', 'c', 't', 'a', 'n', 'g', 'l', 'e'],
        "arrow"@ =~= seq!['a', 'r', 'r', 'o', 'w'],
        "text"@ =~= seq!['t', 'e', 'x', 't'],
        "line_width"@ =~= seq!['l', 'i', 'n', 'e', '_', 'w', 'i', 'd', 't', 'h'],
        "DefaultPath"@ =~= seq!['D', 'e', 'f', 'a', 'u', 'l', 't', 'P', 'a', 't', 'h'],
        "FilePattern"@ =~= seq!['F', 'i', 'l', 'e', 'P', 'a', 't', 't', 'e', 'r', 'n'],
        "AutoStart"@ =~= seq!['A', 'u', 't', 'o', 'S', 't', 'a', 'r', 't'],
        "ShowTrayIcon"@ =~= seq!['S', 'h', 'o', 'w', 'T', 'r', 'a', 'y', 'I', 'c', 'o', 'n'],
        "HotkeyEnabled"@ =~= seq!['H', 'o', 't', 'k', 'e', 'y', 'E', 'n', 'a', 'b', 'l', 'e', 'd'],
        "CleanupOldFiles"@ =~= seq!['C', 'l', 'e', 'a', 'n', 'u', 'p', 'O', 'l', 'd', 'F', 'i', 'l', 'e', 's'],
        "MaxFileAgeHours"@ =~= seq!['M', 'a', 'x', 'F', 'i', 'l', 'e', 'A', 'g', 'e', 'H', 'o', 'u', 'r', 's'],
        "true"@ =~= seq!['t', 'r', 'u', 'e'],
{
    reveal_strlit("DarkMode");
    reveal_strlit("LightMode");
    reveal_strlit("Custom1");
    reveal_strlit("Custom2");
    reveal_strlit("Output");
    reveal_strlit("Behavior");
    reveal_strlit("rectangle");
    reveal_strlit("arrow");
    reveal_strlit("text");
    reveal_strlit("line_width");
    reveal_strlit("DefaultPath");
    reveal_strlit("FilePattern");
    reveal_strlit("AutoStart");
    reveal_strlit("ShowTrayIcon");
    reveal_strlit("HotkeyEnabled");
    reveal_strlit("CleanupOldFiles");
    reveal_strlit("MaxFileAgeHours");
    reveal_strlit("true");
}

proof fn lemma_keys_plain()
    ensures
        plain_key("rectangle"@),
        plain_key("arrow"@),
        plain_key("text"@),
        plain_key("line_width"@),
        plain_key("DefaultPath"@),
        plain_key("FilePattern"@),
        plain_key("AutoStart"@),
        plain_key("ShowTrayIcon"@),
        plain_key("HotkeyEnabled"@),
        plain_key("CleanupOldFiles"@),
        plain_key("MaxFileAgeHours"@),
        "rectangle"@ != "arrow"@,
        "rectangle"@ != "text"@,
        "rectangle"@ != "line_width"@,
        "arrow"@ != "text"@,
        "arrow"@ != "line_width"@,
        "text"@ != "line_width"@,
        "DefaultPath"@ != "FilePattern"@,
        "AutoStart"@ != "ShowTrayIcon"@,
        "AutoStart"@ != "HotkeyEnabled"@,
        "AutoStart"@ != "CleanupOldFiles"@,
        "AutoStart"@ != "MaxFileAgeHours"@,
        "ShowTrayIcon"@ != "HotkeyEnabled"@,
        "ShowTrayIcon"@ != "CleanupOldFiles"@,
        "ShowTrayIcon"@ != "MaxFileAgeHours"@,
        "HotkeyEnabled"@ != "CleanupOldFiles"@,
        "HotkeyEnabled"@ != "MaxFileAgeHours"@,
        "CleanupOldFiles"@ != "MaxFileAgeHours"@,
{
    lemma_literals();
    assert("CleanupOldFiles"@[0] != "MaxFileAgeHours"@[0]);
    assert("DefaultPath"@[0] != "FilePattern"@[0]);
}

proof fn lemma_sections_distinct()
    ensures
        forall|i: int, j: int| 0 <= i < 4 && 0 <= j < 4 && i != j ==> preset_section(i) != preset_section(j),
        forall|i: int| 0 <= i < 4 ==> #[trigger] preset_section(i) != "Output"@,
        forall|i: int| 0 <= i < 4 ==> #[trigger] preset_section(i) != "Behavior"@,
        forall|i: int| 0 <= i < 4 ==> #[trigger] preset_section(i).len() > 0,
        "Output"@ != "Behavior"@,
{
    lemma_literals();
    assert("Custom1"@[6] != "Custom2"@[6]);
    assert("DarkMode"@[0] != "Behavior"@[0]);
}

proof fn lemma_preset_block<W>(i: int, p: PresetView<W>, w: Seq<char>, cur: Seq<char>, acc: IniModel)
    requires
        0 <= i < 4,
        !acc.contains_key(preset_section(i)),
        plain_text(w),
        plain_text(hex_text(p.rectangle_color)),
        plain_text(hex_text(p.arrow_color)),
        plain_text(hex_text(p.text_color)),
    ensures
        ini_run(preset_lines(i, p, w), cur, acc) == (
            preset_section(i),
            acc.insert(preset_section(i), preset_section_map(p, w)),
        ),
{
    let sec = preset_section(i);
    lemma_keys_plain();
    lemma_sections_distinct();
    let ls = preset_lines(i, p, w);
    let a0 = acc.insert(sec, Map::empty());
    lemma_header_step(sec, cur, acc);
    let m1 = Map::<Seq<char>, Seq<char>>::empty().insert("rectangle"@, hex_text(p.rectangle_color));
    let a1 = a0.insert(sec, m1);
    lemma_kv_step("rectangle"@, hex_text(p.rectangle_color), sec, a0);
    assert(a0[sec] == Map::<Seq<char>, Seq<char>>::empty());
    let m2 = m1.insert("arrow"@, hex_text(p.arrow_color));
    let a2 = a1.insert(sec, m2);
    lemma_kv_step("arrow"@, hex_text(p.arrow_color), sec, a1);
    let m3 = m2.insert("text"@, hex_text(p.text_color));
    let a3 = a2.insert(sec, m3);
    lemma_kv_step("text"@, hex_text(p.text_color), sec, a2);
    let m4 = m3.insert("line_width"@, w);
    let a4 = a3.insert(sec, m4);
    lemma_kv_step("line_width"@, w, sec, a3);
    lemma_empty_step(sec, a4);
    assert(ls =~= seq![ls[0]] + (seq![ls[1]] + (seq![ls[2]] + (seq![ls[3]] + (seq![ls[4]] + seq![ls[5]])))));
    lemma_run_concat(seq![ls[0]], seq![ls[1]] + (seq![ls[2]] + (seq![ls[3]] + (seq![ls[4]] + seq![ls[5]]))), cur, acc);
    lemma_run_one(ls[0], cur, acc);
    lemma_run_concat(seq![ls[1]], seq![ls[2]] + (seq![ls[3]] + (seq![ls[4]] + seq![ls[5]])), sec, a0);
    lemma_run_one(ls[1], sec, a0);
    lemma_run_concat(seq![ls[2]], seq![ls[3]] + (seq![ls[4]] + seq![ls[5]]), sec, a1);
    lemma_run_one(ls[2], sec, a1);
    lemma_run_concat(seq![ls[3]], seq![ls[4]] + seq![ls[5]], sec, a2);
    lemma_run_one(ls[3], sec, a2);
    lemma_run_concat(seq![ls[4]], seq![ls[5]], sec, a3);
    lemma_run_one(ls[4], sec, a3);
    lemma_run_one(ls[5], sec, a4);
    assert(a4 =~= acc.insert(sec, preset_section_map(p, w)));
}

proof fn lemma_hex_plain(c: Rgba)
    ensures
        plain_text(hex_text(c)),
{
    let h = hex_text(c);
    assert(!is_white_space('#'));
    assert forall|i: int| 0 <= i < h.len() implies #[trigger] h[i] != '\n' by {
        if i > 0 {
            assert(h[i] as u32 >= 0x30);
        }
    }
    assert(h.last() as u32 >= 0x30);
}

proof fn lemma_presets_model_dom<W>(ps: Seq<PresetView<W>>, ws: Seq<Seq<char>>, n: nat)
    requires
        n <= 4,
    ensures
        forall|x: Seq<char>| #[trigger] presets_model(ps, ws, n).contains_key(x) <==> exists|j: int|
            0 <= j < n && x == preset_section(j),
        forall|j: int| 0 <= j < n ==> #[trigger] presets_model(ps, ws, n)[preset_section(j)]
            == preset_section_map(ps[j], ws[j]),
    decreases n,
{
    lemma_sections_distinct();
    if n > 0 {
        lemma_presets_model_dom(ps, ws, (n - 1) as nat);
        let m = presets_model(ps, ws, n);
        assert forall|x: Seq<char>| #[trigger] m.contains_key(x) implies exists|j: int|
            0 <= j < n && x == preset_section(j) by {
            if x != preset_section(n - 1) {
                assert(presets_model(ps, ws, (n - 1) as nat).contains_key(x));
            }
        }
        assert forall|x: Seq<char>| (exists|j: int| 0 <= j < n && x == preset_section(j)) implies #[trigger] m.contains_key(x) by {
            let j = choose|j: int| 0 <= j < n && x == preset_section(j);
            if j < n - 1 {
                assert(presets_model(ps, ws, (n - 1) as nat).contains_key(x));
            }
        }
        let prev = presets_model(ps, ws, (n - 1) as nat);
        assert(m == prev.insert(preset_section(n - 1), preset_section_map(ps[n - 1], ws[n - 1])));
        assert forall|j: int| 0 <= j < n implies #[trigger] m[preset_section(j)] == preset_section_map(ps[j], ws[j]) by {
            if j < n - 1 {
                assert(preset_section(j) != preset_section(n - 1));
                assert(prev[preset_section(j)] == preset_section_map(ps[j], ws[j]));
            }
        }
    }
}

proof fn lemma_presets_run<W>(ps: Seq<PresetView<W>>, ws: Seq<Seq<char>>, n: nat)
    requires
        n <= 4,
        n <= ps.len(),
        n <= ws.len(),
        forall|i: int| 0 <= i < n ==> plain_text(#[trigger] ws[i]),
    ensures
        ini_run(presets_lines(ps, ws, n), Seq::empty(), Map::empty()).1 == presets_model(ps, ws, n),
    decreases n,
{
    if n > 0 {
        let k = (n - 1) as nat;
        lemma_presets_run(ps, ws, k);
        let st = ini_run(presets_lines(ps, ws, k), Seq::empty(), Map::empty());
        lemma_run_concat(presets_lines(ps, ws, k), preset_lines(k as int, ps[k as int], ws[k as int]), Seq::empty(), Map::empty());
        lemma_presets_model_dom(ps, ws, k);
        lemma_sections_distinct();
        assert(!presets_model(ps, ws, k).contains_key(preset_section(k as int))) by {
            if presets_model(ps, ws, k).contains_key(preset_section(k as int)) {
                let j = choose|j: int| 0 <= j < k && preset_section(k as int) == preset_section(j);
                assert(false);
            }
        }
        lemma_hex_plain(ps[k as int].rectangle_color);
        lemma_hex_plain(ps[k as int].arrow_color);
        lemma_hex_plain(ps[k as int].text_color);
        lemma_preset_block(k as int, ps[k as int], ws[k as int], st.0, st.1);
    }
}

proof fn lemma_bool_plain(b: bool)
    ensures
        plain_text(bool_text(b)),
        (bool_text(b) == "true"@) == b,
{
    lemma_literals();
    if !b {
        assert(bool_text(b).len() == 5);
    }
    assert(!is_white_space('t') && !is_white_space('e') && !is_white_space('f'));
}

proof fn lemma_decimal_plain(n: nat)
    ensures
        plain_text(decimal(n)),
    decreases n,
{
    let d = decimal(n);
    if n >= 10 {
        lemma_decimal_plain(n / 10);
        assert(d[0] == decimal(n / 10)[0]);
        assert forall|i: int| 0 <= i < d.len() implies #[trigger] d[i] != '\n' by {
            if i < d.len() - 1 {
                assert(d[i] == decimal(n / 10)[i]);
            }
        }
    }
    assert(d.last() as u32 >= 0x30);
}

proof fn lemma_output_block<W>(s: SettingsView<W>, cur: Seq<char>, acc: IniModel)
    requires
        !acc.contains_key("Output"@),
        "Output"@.len() > 0,
        plain_key("DefaultPath"@),
        plain_key("FilePattern"@),
        "DefaultPath"@ != "FilePattern"@,
        plain_text(s.output_path),
        plain_text(s.file_pattern),
    ensures
        ini_run(general_lines(s).take(4), cur, acc) == ("Output"@, acc.insert("Output"@, output_map(s))),
{
    let ls = general_lines(s).take(4);
    let o = "Output"@;
    let e = Map::<Seq<char>, Seq<char>>::empty();
    let a0 = acc.insert(o, e);
    lemma_header_step(o, cur, acc);
    let a1 = a0.insert(o, e.insert("DefaultPath"@, s.output_path));
    lemma_kv_step("DefaultPath"@, s.output_path, o, a0);
    let a2 = a1.insert(o, output_map(s));
    lemma_kv_step("FilePattern"@, s.file_pattern, o, a1);
    lemma_empty_step(o, a2);
    assert(ls =~= seq![ls[0]] + (seq![ls[1]] + (seq![ls[2]] + seq![ls[3]])));
    lemma_run_concat(seq![ls[0]], seq![ls[1]] + (seq![ls[2]] + seq![ls[3]]), cur, acc);
    lemma_run_one(ls[0], cur, acc);
    lemma_run_concat(seq![ls[1]], seq![ls[2]] + seq![ls[3]], o, a0);
    lemma_run_one(ls[1], o, a0);
    lemma_run_concat(seq![ls[2]], seq![ls[3]], o, a1);
    lemma_run_one(ls[2], o, a1);
    lemma_run_one(ls[3], o, a2);
    assert(a2 =~= acc.insert(o, output_map(s)));
}

proof fn lemma_behavior_block<W>(s: SettingsView<W>, cur: Seq<char>, acc: IniModel)
    requires
        !acc.contains_key("Behavior"@),
        "Behavior"@.len() > 0,
        plain_key("AutoStart"@),
        plain_key("ShowTrayIcon"@),
        plain_key("HotkeyEnabled"@),
        plain_key("CleanupOldFiles"@),
        plain_key("MaxFileAgeHours"@),
        plain_text(bool_text(s.auto_start)),
        plain_text(bool_text(s.show_tray_icon)),
        plain_text(bool_text(s.hotkey_enabled)),
        plain_text(bool_text(s.cleanup_old_files)),
        plain_text(decimal(s.max_file_age_hours as nat)),
    ensures
        ini_run(general_lines(s).skip(4), cur, acc).1 == acc.insert("Behavior"@, behavior_map(s)),
{
    let ls = general_lines(s).skip(4);
    let b = "Behavior"@;
    let e = Map::<Seq<char>, Seq<char>>::empty();
    let b0 = acc.insert(b, e);
    lemma_header_step(b, cur, acc);
    let v1 = e.insert("AutoStart"@, bool_text(s.auto_start));
    let b1 = b0.insert(b, v1);
    lemma_kv_step("AutoStart"@, bool_text(s.auto_start), b, b0);
    let v2 = v1.insert("ShowTrayIcon"@, bool_text(s.show_tray_icon));
    let b2 = b1.insert(b, v2);
    lemma_kv_step("ShowTrayIcon"@, bool_text(s.show_tray_icon), b, b1);
    let v3 = v2.insert("HotkeyEnabled"@, bool_text(s.hotkey_enabled));
    let b3 = b2.insert(b, v3);
    lemma_kv_step("HotkeyEnabled"@, bool_text(s.hotkey_enabled), b, b2);
    let v4 = v3.insert("CleanupOldFiles"@, bool_text(s.cleanup_old_files));
    let b4 = b3.insert(b, v4);
    lemma_kv_step("CleanupOldFiles"@, bool_text(s.cleanup_old_files), b, b3);
    let v5 = v4.insert("MaxFileAgeHours"@, decimal(s.max_file_age_hours as nat));
    let b5 = b4.insert(b, v5);
    lemma_kv_step("MaxFileAgeHours"@, decimal(s.max_file_age_hours as nat), b, b4);
    assert(ls =~= seq![ls[0]] + (seq![ls[1]] + (seq![ls[2]] + (seq![ls[3]] + (seq![ls[4]] + seq![ls[5]])))));
    lemma_run_concat(seq![ls[0]], seq![ls[1]] + (seq![ls[2]] + (seq![ls[3]] + (seq![ls[4]] + seq![ls[5]]))), cur, acc);
    lemma_run_one(ls[0], cur, acc);
    lemma_run_concat(seq![ls[1]], seq![ls[2]] + (seq![ls[3]] + (seq![ls[4]] + seq![ls[5]])), b, b0);
    lemma_run_one(ls[1], b, b0);
    lemma_run_concat(seq![ls[2]], seq![ls[3]] + (seq![ls[4]] + seq![ls[5]]), b, b1);
    lemma_run_one(ls[2], b, b1);
    lemma_run_concat(seq![ls[3]], seq![ls[4]] + seq![ls[5]], b, b2);
    lemma_run_one(ls[3], b, b2);
    lemma_run_concat(seq![ls[4]], seq![ls[5]], b, b3);
    lemma_run_one(ls[4], b, b3);
    lemma_run_one(ls[5], b, b4);
    assert(b5 =~= acc.insert(b, behavior_map(s)));
}

proof fn lemma_general_block<W>(s: SettingsView<W>, cur: Seq<char>, acc: IniModel)
    requires
        !acc.contains_key("Output"@),
        !acc.contains_key("Behavior"@),
        plain_text(s.output_path),
        plain_text(s.file_pattern),
    ensures
        ini_run(general_lines(s), cur, acc).1 == acc.insert("Output"@, output_map(s)).insert(
            "Behavior"@,
            behavior_map(s),
        ),
{
    lemma_keys_plain();
    lemma_sections_distinct();
    lemma_literals();
    lemma_bool_plain(s.auto_start);
    lemma_bool_plain(s.show_tray_icon);
    lemma_bool_plain(s.hotkey_enabled);
    lemma_bool_plain(s.cleanup_old_files);
    lemma_decimal_plain(s.max_file_age_hours as nat);
    let ls = general_lines(s);
    assert(ls =~= ls.take(4) + ls.skip(4));
    lemma_run_concat(ls.take(4), ls.skip(4), cur, acc);
    lemma_output_block(s, cur, acc);
    let a = acc.insert("Output"@, output_map(s));
    lemma_behavior_block(s, "Output"@, a);
}

/// The sections read from the settings file are those it was written from.
pub proof fn lemma_settings_text_model<W>(s: SettingsView<W>, widths: Seq<Seq<char>>)
    requires
        widths.len() == stored_presets(s.presets.len()),
        forall|i: int| 0 <= i < widths.len() ==> plain_text(#[trigger] widths[i]),
        plain_text(s.output_path),
        plain_text(s.file_pattern),
    ensures
        ini_model(settings_text(s, widths)) == settings_model(s, widths),
{
    let n = stored_presets(s.presets.len());
    let pl = presets_lines(s.presets, widths, n);
    let gl = general_lines(s);
    let all = pl + gl;
    lemma_presets_lines_newlines(s.presets, widths, n);
    lemma_general_newlines(s);
    assert forall|i: int, j: int| 0 <= i < all.len() && 0 <= j < all[i].len() implies #[trigger] all[i][j] != '\n' by {
        if i < pl.len() {
            assert(all[i] == pl[i]);
        } else {
            assert(all[i] == gl[i - pl.len()]);
        }
    }
    lemma_split_join(all);
    lemma_run_fold(all.push(Seq::empty()), Seq::empty(), Map::empty());
    assert(all.push(Seq::empty()) =~= pl + (gl + seq![Seq::<char>::empty()]));
    lemma_run_concat(pl, gl + seq![Seq::<char>::empty()], Seq::empty(), Map::empty());
    lemma_presets_run(s.presets, widths, n);
    let st = ini_run(pl, Seq::empty(), Map::empty());
    lemma_run_concat(gl, seq![Seq::<char>::empty()], st.0, st.1);
    lemma_presets_model_dom(s.presets, widths, n);
    lemma_sections_distinct();
    assert(!st.1.contains_key("Output"@));
    assert(!st.1.contains_key("Behavior"@));
    lemma_general_block(s, st.0, st.1);
    let st2 = ini_run(gl, st.0, st.1);
    lemma_run_one(Seq::empty(), st2.0, st2.1);
    lemma_empty_step(st2.0, st2.1);
}

proof fn lemma_presets_lines_newlines<W>(ps: Seq<PresetView<W>>, ws: Seq<Seq<char>>, n: nat)
    requires
        n <= 4,
        n <= ws.len(),
        forall|i: int| 0 <= i < n ==> plain_text(#[trigger] ws[i]),
    ensures
        forall|i: int, j: int| 0 <= i < presets_lines(ps, ws, n).len() && 0 <= j < presets_lines(ps, ws, n)[i].len()
            ==> #[trigger] presets_lines(ps, ws, n)[i][j] != '\n',
    decreases n,
{
    if n > 0 {
        let k = (n - 1) as nat;
        lemma_presets_lines_newlines(ps, ws, k);
        lemma_keys_plain();
        lemma_literals();
        lemma_hex_plain(ps[k as int].rectangle_color);
        lemma_hex_plain(ps[k as int].arrow_color);
        lemma_hex_plain(ps[k as int].text_color);
        let a = presets_lines(ps, ws, k);
        let b = preset_lines(k as int, ps[k as int], ws[k as int]);
        assert forall|i: int, j: int| 0 <= i < (a + b).len() && 0 <= j < (a + b)[i].len()
            implies #[trigger] (a + b)[i][j] != '\n' by {
            if i < a.len() {
                assert((a + b)[i] == a[i]);
            } else {
                let q = i - a.len();
                assert((a + b)[i] == b[q]);
                if q == 0 {
                    assert(b[q] =~= seq!['['] + preset_section(k as int) + seq![']']);
                } else if q == 1 {
                    assert(b[q] =~= "rectangle"@ + seq!['='] + hex_text(ps[k as int].rectangle_color));
                } else if q == 2 {
                    assert(b[q] =~= "arrow"@ + seq!['='] + hex_text(ps[k as int].arrow_color));
                } else if q == 3 {
                    assert(b[q] =~= "text"@ + seq!['='] + hex_text(ps[k as int].text_color));
                } else if q == 4 {
                    assert(b[q] =~= "line_width"@ + seq!['='] + ws[k as int]);
                }
            }
        }
    }
}

proof fn lemma_general_newlines<W>(s: SettingsView<W>)
    requires
        plain_text(s.output_path),
        plain_text(s.file_pattern),
    ensures
        forall|i: int, j: int| 0 <= i < general_lines(s).len() && 0 <= j < general_lines(s)[i].len()
            ==> #[trigger] general_lines(s)[i][j] != '\n',
{
    lemma_keys_plain();
    lemma_literals();
    lemma_bool_plain(s.auto_start);
    lemma_bool_plain(s.show_tray_icon);
    lemma_bool_plain(s.hotkey_enabled);
    lemma_bool_plain(s.cleanup_old_files);
    lemma_decimal_plain(s.max_file_age_hours as nat);
}

/// The decimal text that the settings file holds for a number is read back as
/// that number.
pub proof fn lemma_number_roundtrip(h: u64)
    ensures
        u64_of_text(decimal(h as nat)) == Some(h),
{
    lemma_decimal_digits_value(h as nat);
}

proof fn lemma_model_lookups<W>(s: SettingsView<W>, widths: Seq<Seq<char>>, i: int)
    requires
        widths.len() == stored_presets(s.presets.len()),
        0 <= i < 4,
    ensures
        i < widths.len() ==> {
            let m = settings_model(s, widths);
            &&& ini_value(m, preset_section(i), "rectangle"@) == Some(hex_text(s.presets[i].rectangle_color))
            &&& ini_value(m, preset_section(i), "arrow"@) == Some(hex_text(s.presets[i].arrow_color))
            &&& ini_value(m, preset_section(i), "text"@) == Some(hex_text(s.presets[i].text_color))
            &&& ini_value(m, preset_section(i), "line_width"@) == Some(widths[i])
        },
        i >= widths.len() ==> !settings_model(s, widths).contains_key(preset_section(i)),
{
    let n = stored_presets(s.presets.len());
    lemma_presets_model_dom(s.presets, widths, n);
    lemma_sections_distinct();
    lemma_keys_plain();
    let pm = presets_model(s.presets, widths, n);
    let m = settings_model(s, widths);
    if i < n {
        assert(pm.contains_key(preset_section(i)));
        assert(m[preset_section(i)] == pm[preset_section(i)]);
        assert(pm[preset_section(i)] == preset_section_map(s.presets[i], widths[i]));
    } else {
        if pm.contains_key(preset_section(i)) {
            let j = choose|j: int| 0 <= j < n && preset_section(i) == preset_section(j);
            assert(false);
        }
    }
}

/// Settings persist: reading the file that `to_ini_text` writes for `s` (with the
/// width texts `widths`) over any settings `base` restores, for every stored preset,
/// its colors (made fully opaque) and its width, and restores the output path (with
/// its environment variables expanded, so unchanged when it names neither
/// `%USERPROFILE%` nor `%APPDATA%`), the file pattern, the flags and the file age;
/// presets past the stored ones and the selection keep the values of `base`. Values
/// with white space at an end or a newline inside are left out: the parser trims
/// and splits them.
pub proof fn lemma_settings_roundtrip<W>(
    s: SettingsView<W>,
    widths: Seq<Seq<char>>,
    base: SettingsView<W>,
    env: EnvView,
    parsed: Seq<Option<W>>,
)
    requires
        widths.len() == stored_presets(s.presets.len()),
        forall|i: int| 0 <= i < widths.len() ==> plain_text(#[trigger] widths[i]),
        plain_text(s.output_path),
        plain_text(s.file_pattern),
        widths.len() <= base.presets.len(),
        parsed.len() == 4,
        forall|i: int| 0 <= i < widths.len() ==> #[trigger] parsed[i] == Some(s.presets[i].line_width),
    ensures
        ({
            let m = ini_model(settings_text(s, widths));
            let r = applied_settings(base, m, env, parsed);
            &&& config_readable(m, base.presets.len())
            &&& forall|i: int| 0 <= i < widths.len() ==> #[trigger] ini_value(m, preset_section(i), "line_width"@)
                == Some(widths[i])
            &&& forall|i: int| widths.len() <= i < 4 ==> #[trigger] ini_value(m, preset_section(i), "line_width"@)
                is None
            &&& r.presets.len() == base.presets.len()
            &&& forall|i: int| 0 <= i < widths.len() ==> #[trigger] r.presets[i] == (PresetView {
                name: base.presets[i].name,
                rectangle_color: s.presets[i].rectangle_color.opaque(),
                arrow_color: s.presets[i].arrow_color.opaque(),
                text_color: s.presets[i].text_color.opaque(),
                line_width: s.presets[i].line_width,
            })
            &&& forall|i: int| widths.len() <= i < base.presets.len() ==> #[trigger] r.presets[i] == base.presets[i]
            &&& r.current_preset == base.current_preset
            &&& r.output_path == expanded_path(s.output_path, env)
            &&& (!contains_text(s.output_path, "%USERPROFILE%"@) && !contains_text(s.output_path, "%APPDATA%"@)
                ==> r.output_path == s.output_path)
            &&& r.file_pattern == s.file_pattern
            &&& r.auto_start == s.auto_start
            &&& r.show_tray_icon == s.show_tray_icon
            &&& r.hotkey_enabled == s.hotkey_enabled
            &&& r.cleanup_old_files == s.cleanup_old_files
            &&& r.max_file_age_hours == s.max_file_age_hours
        }),
{
    lemma_settings_text_model(s, widths);
    let m = ini_model(settings_text(s, widths));
    let r = applied_settings(base, m, env, parsed);
    let n = widths.len();
    lemma_sections_distinct();
    lemma_keys_plain();
    lemma_literals();
    assert forall|i: int| 0 <= i < 4 implies {
        &&& m.contains_key(#[trigger] preset_section(i)) ==> i < base.presets.len()
        &&& (ini_value(m, preset_section(i), "rectangle"@) matches Some(t) ==> color_text_sliceable(t))
        &&& (ini_value(m, preset_section(i), "arrow"@) matches Some(t) ==> color_text_sliceable(t))
        &&& (ini_value(m, preset_section(i), "text"@) matches Some(t) ==> color_text_sliceable(t))
    } by {
        lemma_model_lookups(s, widths, i);
        if i < n {
            lemma_color_hex_roundtrip(s.presets[i].rectangle_color);
            lemma_color_hex_roundtrip(s.presets[i].arrow_color);
            lemma_color_hex_roundtrip(s.presets[i].text_color);
        }
    }
    assert forall|i: int| 0 <= i < n implies #[trigger] ini_value(m, preset_section(i), "line_width"@) == Some(widths[i]) by {
        lemma_model_lookups(s, widths, i);
    }
    assert forall|i: int| n <= i < 4 implies #[trigger] ini_value(m, preset_section(i), "line_width"@) is None by {
        lemma_model_lookups(s, widths, i);
    }
    assert forall|i: int| 0 <= i < n implies #[trigger] r.presets[i] == (PresetView {
        name: base.presets[i].name,
        rectangle_color: s.presets[i].rectangle_color.opaque(),
        arrow_color: s.presets[i].arrow_color.opaque(),
        text_color: s.presets[i].text_color.opaque(),
        line_width: s.presets[i].line_width,
    }) by {
        lemma_model_lookups(s, widths, i);
        lemma_color_hex_roundtrip(s.presets[i].rectangle_color);
        lemma_color_hex_roundtrip(s.presets[i].arrow_color);
        lemma_color_hex_roundtrip(s.presets[i].text_color);
    }
    assert forall|i: int| n <= i < base.presets.len() implies #[trigger] r.presets[i] == base.presets[i] by {
        if i < 4 {
            lemma_model_lookups(s, widths, i);
        }
    }
    // The `[Output]` and `[Behavior]` values.
    assert(m.contains_key("Output"@) && m["Output"@] == output_map(s));
    assert(m.contains_key("Behavior"@) && m["Behavior"@] == behavior_map(s));
    assert(ini_value(m, "Output"@, "DefaultPath"@) == Some(s.output_path));
    assert(ini_value(m, "Output"@, "FilePattern"@) == Some(s.file_pattern));
    lemma_bool_plain(s.auto_start);
    lemma_bool_plain(s.show_tray_icon);
    lemma_bool_plain(s.hotkey_enabled);
    lemma_bool_plain(s.cleanup_old_files);
    assert(ini_value(m, "Behavior"@, "AutoStart"@) == Some(bool_text(s.auto_start)));
    assert(ini_value(m, "Behavior"@, "ShowTrayIcon"@) == Some(bool_text(s.show_tray_icon)));
    assert(ini_value(m, "Behavior"@, "HotkeyEnabled"@) == Some(bool_text(s.hotkey_enabled)));
    assert(ini_value(m, "Behavior"@, "CleanupOldFiles"@) == Some(bool_text(s.cleanup_old_files)));
    assert(ini_value(m, "Behavior"@, "MaxFileAgeHours"@) == Some(decimal(s.max_file_age_hours as nat)));
    lemma_number_roundtrip(s.max_file_age_hours);
    if !contains_text(s.output_path, "%USERPROFILE%"@) && !contains_text(s.output_path, "%APPDATA%"@) {
        match env.userprofile {
            Some(u) => lemma_replace_absent(s.output_path, "%USERPROFILE%"@, u),
            None => {},
        }
        match env.appdata {
            Some(a) => lemma_replace_absent(s.output_path, "%APPDATA%"@, a),
            None => {},
        }
    }
}


/// Characters that may pad a key or a value on its line: white space other than a
/// newline.
pub open spec fn line_padding(s: Seq<char>) -> bool {
    forall|i: int| 0 <= i < s.len() ==> is_white_space(#[trigger] s[i]) && s[i] != '\n'
}

proof fn lemma_trim_start_padding(s: Seq<char>, x: Seq<char>)
    requires
        line_padding(s),
    ensures
        trim_start(s + x) == trim_start(x),
    decreases s.len(),
{
    if s.len() == 0 {
        assert(s + x =~= x);
    } else {
        assert(is_white_space(s[0]));
        assert((s + x)[0] == s[0]);
        assert((s + x).drop_first() =~= s.drop_first() + x);
        assert(line_padding(s.drop_first())) by {
            assert forall|i: int| 0 <= i < s.drop_first().len() implies is_white_space(#[trigger] s.drop_first()[i])
                && s.drop_first()[i] != '\n' by {
                assert(s.drop_first()[i] == s[i + 1]);
            }
        }
        lemma_trim_start_padding(s.drop_first(), x);
    }
}

proof fn lemma_trim_end_padding(x: Seq<char>, s: Seq<char>)
    requires
        line_padding(s),
    ensures
        trim_end(x + s) == trim_end(x),
    decreases s.len(),
{
    if s.len() == 0 {
        assert(x + s =~= x);
    } else {
        assert(is_white_space(s.last()));
        assert((x + s).last() == s.last());
        assert((x + s).drop_last() =~= x + s.drop_last());
        assert(line_padding(s.drop_last())) by {
            assert forall|i: int| 0 <= i < s.drop_last().len() implies is_white_space(#[trigger] s.drop_last()[i])
                && s.drop_last()[i] != '\n' by {
                assert(s.drop_last()[i] == s[i]);
            }
        }
        lemma_trim_end_padding(x, s.drop_last());
    }
}

/// Keys and values are read trimmed: in a section `[sec]`, a line holding a key,
/// padding, `=`, more padding and a value sets the key to the value without the
/// padding, whatever white space (other than a newline) surrounds the `=`.
pub proof fn lemma_key_value_trimmed(sec: Seq<char>, k: Seq<char>, s1: Seq<char>, s2: Seq<char>, v: Seq<char>)
    requires
        sec.len() > 0,
        forall|i: int| 0 <= i < sec.len() ==> #[trigger] sec[i] != '\n',
        plain_key(k),
        plain_text(v),
        line_padding(s1),
        line_padding(s2),
    ensures
        ({
            let m = ini_model(seq!['['] + sec + seq![']', '\n'] + k + s1 + seq!['='] + s2 + v);
            &&& m.contains_key(sec)
            &&& m[sec].contains_key(k)
            &&& m[sec][k] == v
        }),
{
    let h = header_line(sec);
    let line = k + s1 + seq!['='] + s2 + v;
    let text = seq!['['] + sec + seq![']', '\n'] + k + s1 + seq!['='] + s2 + v;
    assert(text =~= h + (seq!['\n'] + line));
    // The header holds no newline, so the text splits into the header and the line.
    assert forall|i: int| 0 <= i < h.len() implies #[trigger] h[i] != '\n' by {
        if 0 < i < h.len() - 1 {
            assert(h[i] == sec[i - 1]);
        }
    }
    lemma_first_index_concat(h, seq!['\n'] + line, '\n');
    assert((seq!['\n'] + line)[0] == '\n');
    assert(first_index_of(seq!['\n'] + line, '\n') == Some(0int));
    assert(text.take(h.len() as int) =~= h);
    assert(text.skip(h.len() as int + 1) =~= line);
    assert forall|i: int| 0 <= i < line.len() implies #[trigger] line[i] != '\n' by {
        if i < k.len() {
            assert(line[i] == k[i]);
        } else if i < k.len() + s1.len() {
            assert(line[i] == s1[i - k.len()]);
        } else if i == k.len() + s1.len() {
        } else if i < k.len() + s1.len() + 1 + s2.len() {
            assert(line[i] == s2[i - k.len() - s1.len() - 1]);
        } else {
            assert(line[i] == v[i - k.len() - s1.len() - 1 - s2.len()]);
        }
    }
    lemma_first_index_of(line, '\n');
    assert(split_lines(line) == seq![line]);
    assert(split_lines(text) =~= seq![h, line]);
    // The header opens the section.
    let acc0: IniModel = Map::empty();
    lemma_header_step(sec, Seq::empty(), acc0);
    let acc1 = acc0.insert(sec, Map::empty());
    // The line, trimmed.
    let r = if v.len() > 0 { s2 + v } else { Seq::<char>::empty() };
    let ks = k + s1;
    let lt = ks + (seq!['='] + r);
    assert(line[0] == k[0]);
    assert(trim_start(line) == line);
    if v.len() > 0 {
        assert(line.last() == v.last());
        assert(trim_end(line) == line);
        assert(lt =~= line);
    } else {
        assert(line =~= (ks + seq!['=']) + s2);
        lemma_trim_end_padding(ks + seq!['='], s2);
        assert((ks + seq!['=']).last() == '=');
        assert(trim_end(ks + seq!['=']) == ks + seq!['=']);
        assert(lt =~= ks + seq!['=']);
    }
    assert(trim(line) == lt);
    assert(lt[0] == k[0]);
    assert forall|i: int| 0 <= i < ks.len() implies #[trigger] ks[i] != '=' by {
        if i < k.len() {
            assert(ks[i] == k[i]);
        } else {
            assert(ks[i] == s1[i - k.len()]);
            assert(is_white_space(s1[i - k.len()]));
        }
    }
    lemma_first_index_concat(ks, seq!['='] + r, '=');
    assert((seq!['='] + r)[0] == '=');
    assert(first_index_of(seq!['='] + r, '=') == Some(0int));
    assert(lt.take(ks.len() as int) =~= ks);
    assert(lt.skip(ks.len() as int + 1) =~= r);
    // The key and the value lose their padding.
    assert(trim_start(ks) == ks);
    lemma_trim_end_padding(k, s1);
    assert(trim_end(k) == k);
    assert(trim(ks) == k);
    if v.len() > 0 {
        lemma_trim_start_padding(s2, v);
        assert(trim_start(v) == v);
        assert(trim_end(v) == v);
    } else {
        assert(trim_start(r) == r);
        assert(trim_end(r) == r);
    }
    assert(trim(r) == v);
    assert(ini_step(line, sec, acc1) == (sec, acc1.insert(sec, acc1[sec].insert(k, v))));
    let acc2 = acc1.insert(sec, acc1[sec].insert(k, v));
    assert(seq![h, line].drop_first() =~= seq![line]);
    assert(seq![line].drop_first() =~= Seq::<Seq<char>>::empty());
    assert(ini_fold(seq![line], sec, acc1) == ini_fold(Seq::<Seq<char>>::empty(), sec, acc2));
}


/// Each preset is written under its own section: the Dark Mode preset (preset 0)
/// under `[DarkMode]`, Light Mode (1) under `[LightMode]`, Custom 1 (2) under
/// `[Custom1]` and Custom 2 (3) under `[Custom2]`, each with its colors and width.
pub proof fn lemma_presets_written_by_name<W>(s: SettingsView<W>, widths: Seq<Seq<char>>)
    requires
        widths.len() == stored_presets(s.presets.len()),
        forall|i: int| 0 <= i < widths.len() ==> plain_text(#[trigger] widths[i]),
        plain_text(s.output_path),
        plain_text(s.file_pattern),
    ensures
        ({
            let m = ini_model(settings_text(s, widths));
            &&& widths.len() > 0 ==> {
                &&& ini_value(m, "DarkMode"@, "rectangle"@) == Some(hex_text(s.presets[0].rectangle_color))
                &&& ini_value(m, "DarkMode"@, "arrow"@) == Some(hex_text(s.presets[0].arrow_color))
                &&& ini_value(m, "DarkMode"@, "text"@) == Some(hex_text(s.presets[0].text_color))
                &&& ini_value(m, "DarkMode"@, "line_width"@) == Some(widths[0])
            }
            &&& widths.len() > 1 ==> {
                &&& ini_value(m, "LightMode"@, "rectangle"@) == Some(hex_text(s.presets[1].rectangle_color))
                &&& ini_value(m, "LightMode"@, "arrow"@) == Some(hex_text(s.presets[1].arrow_color))
                &&& ini_value(m, "LightMode"@, "text"@) == Some(hex_text(s.presets[1].text_color))
                &&& ini_value(m, "LightMode"@, "line_width"@) == Some(widths[1])
            }
            &&& widths.len() > 2 ==> {
                &&& ini_value(m, "Custom1"@, "rectangle"@) == Some(hex_text(s.presets[2].rectangle_color))
                &&& ini_value(m, "Custom1"@, "arrow"@) == Some(hex_text(s.presets[2].arrow_color))
                &&& ini_value(m, "Custom1"@, "text"@) == Some(hex_text(s.presets[2].text_color))
                &&& ini_value(m, "Custom1"@, "line_width"@) == Some(widths[2])
            }
            &&& widths.len() > 3 ==> {
                &&& ini_value(m, "Custom2"@, "rectangle"@) == Some(hex_text(s.presets[3].rectangle_color))
                &&& ini_value(m, "Custom2"@, "arrow"@) == Some(hex_text(s.presets[3].arrow_color))
                &&& ini_value(m, "Custom2"@, "text"@) == Some(hex_text(s.presets[3].text_color))
                &&& ini_value(m, "Custom2"@, "line_width"@) == Some(widths[3])
            }
        }),
{
    lemma_settings_text_model(s, widths);
    lemma_model_lookups(s, widths, 0);
    lemma_model_lookups(s, widths, 1);
    lemma_model_lookups(s, widths, 2);
    lemma_model_lookups(s, widths, 3);
}

/// Each section is read into its own preset: a color named in `[DarkMode]` goes to
/// preset 0, `[LightMode]` to preset 1, `[Custom1]` to preset 2 and `[Custom2]` to
/// preset 3, whatever the settings held before.
pub proof fn lemma_presets_read_by_name<W>(base: SettingsView<W>, m: IniModel, env: EnvView, parsed: Seq<Option<W>>)
    ensures
        ({
            let r = applied_settings(base, m, env, parsed);
            &&& base.presets.len() > 0 ==> (ini_value(m, "DarkMode"@, "rectangle"@) matches Some(t)
                ==> (color_of_text(t) matches Some(c) ==> r.presets[0].rectangle_color == c))
            &&& base.presets.len() > 0 ==> (ini_value(m, "DarkMode"@, "arrow"@) matches Some(t)
                ==> (color_of_text(t) matches Some(c) ==> r.presets[0].arrow_color == c))
            &&& base.presets.len() > 0 ==> (ini_value(m, "DarkMode"@, "text"@) matches Some(t)
                ==> (color_of_text(t) matches Some(c) ==> r.presets[0].text_color == c))
            &&& base.presets.len() > 1 ==> (ini_value(m, "LightMode"@, "rectangle"@) matches Some(t)
                ==> (color_of_text(t) matches Some(c) ==> r.presets[1].rectangle_color == c))
            &&& base.presets.len() > 1 ==> (ini_value(m, "LightMode"@, "arrow"@) matches Some(t)
                ==> (color_of_text(t) matches Some(c) ==> r.presets[1].arrow_color == c))
            &&& base.presets.len() > 1 ==> (ini_value(m, "LightMode"@, "text"@) matches Some(t)
                ==> (color_of_text(t) matches Some(c) ==> r.presets[1].text_color == c))
            &&& base.presets.len() > 2 ==> (ini_value(m, "Custom1"@, "rectangle"@) matches Some(t)
                ==> (color_of_text(t) matches Some(c) ==> r.presets[2].rectangle_color == c))
            &&& base.presets.len() > 2 ==> (ini_value(m, "Custom1"@, "arrow"@) matches Some(t)
                ==> (color_of_text(t) matches Some(c) ==> r.presets[2].arrow_color == c))
            &&& base.presets.len() > 2 ==> (ini_value(m, "Custom1"@, "text"@) matches Some(t)
                ==> (color_of_text(t) matches Some(c) ==> r.presets[2].text_color == c))
            &&& base.presets.len() > 3 ==> (ini_value(m, "Custom2"@, "rectangle"@) matches Some(t)
                ==> (color_of_text(t) matches Some(c) ==> r.presets[3].rectangle_color == c))
            &&& base.presets.len() > 3 ==> (ini_value(m, "Custom2"@, "arrow"@) matches Some(t)
                ==> (color_of_text(t) matches Some(c) ==> r.presets[3].arrow_color == c))
            &&& base.presets.len() > 3 ==> (ini_value(m, "Custom2"@, "text"@) matches Some(t)
                ==> (color_of_text(t) matches Some(c) ==> r.presets[3].text_color == c))
        }),
{
}

/// A flag that the file names is on exactly when its text is `true`, whatever it
/// was before: `false`, `False`, `0` or any other text turns it off.
pub proof fn lemma_flags_read<W>(base: SettingsView<W>, m: IniModel, env: EnvView, parsed: Seq<Option<W>>, t: Seq<char>)
    ensures
        ({
            let r = applied_settings(base, m, env, parsed);
            &&& ini_value(m, "Behavior"@, "AutoStart"@) == Some(t) ==> r.auto_start == (t == "true"@)
            &&& ini_value(m, "Behavior"@, "ShowTrayIcon"@) == Some(t) ==> r.show_tray_icon == (t == "true"@)
            &&& ini_value(m, "Behavior"@, "HotkeyEnabled"@) == Some(t) ==> r.hotkey_enabled == (t == "true"@)
            &&& ini_value(m, "Behavior"@, "CleanupOldFiles"@) == Some(t) ==> r.cleanup_old_files == (t == "true"@)
        }),
{
}

} // verus!
