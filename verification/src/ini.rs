use vstd::prelude::*;

use crate::text::{
    first_index_of, trim, find_char, str_to_chars, substring, trim_bounds,
};

verus! {

/// What a section holds: each key with its value.
pub type SectionModel = Map<Seq<char>, Seq<char>>;

/// What a parsed file holds: each section name with its section.
pub type IniModel = Map<Seq<char>, SectionModel>;

/// The pieces of `s` between newline characters, in order. The carriage return of
/// a CRLF ending stays in its piece, and a final newline leaves an empty last piece;
/// the parser trims every line and skips empty ones, so it reads the same lines from
/// these pieces as from `str::lines`.
pub open spec fn split_lines(s: Seq<char>) -> Seq<Seq<char>>
    decreases s.len(),
{
    match first_index_of(s, '\n') {
        Some(i) => {
            if 0 <= i < s.len() {
                seq![s.take(i)] + split_lines(s.skip(i + 1))
            } else {
                seq![s]
            }
        },
        None => seq![s],
    }
}

/// The effect of one line on the parser's state: the current section name and the
/// sections read so far.
/// Blank lines and lines starting with `;` or `#` are skipped. A line framed by `[`
/// and `]` names the current section and creates it if it is new. Otherwise a line
/// with `=` sets the trimmed text before the first `=` to the trimmed text after it,
/// in the current section, when there is one.
pub open spec fn ini_step(line: Seq<char>, cur: Seq<char>, acc: IniModel) -> (Seq<char>, IniModel) {
    let l = trim(line);
    if l.len() == 0 || l[0] == ';' || l[0] == '#' {
        (cur, acc)
    } else if l[0] == '[' && l.last() == ']' {
        let name = l.subrange(1, l.len() - 1);
        (name, if acc.contains_key(name) { acc } else { acc.insert(name, Map::empty()) })
    } else {
        match first_index_of(l, '=') {
            Some(p) => {
                if cur.len() > 0 && acc.contains_key(cur) {
                    (cur, acc.insert(cur, acc[cur].insert(trim(l.take(p)), trim(l.skip(p + 1)))))
                } else {
                    (cur, acc)
                }
            },
            None => (cur, acc),
        }
    }
}

/// The sections that the lines give, read in order from the given state.
pub open spec fn ini_fold(lines: Seq<Seq<char>>, cur: Seq<char>, acc: IniModel) -> IniModel
    decreases lines.len(),
{
    if lines.len() == 0 {
        acc
    } else {
        let (c, a) = ini_step(lines[0], cur, acc);
        ini_fold(lines.drop_first(), c, a)
    }
}

/// The sections that the text `content` holds.
pub open spec fn ini_model(content: Seq<char>) -> IniModel {
    ini_fold(split_lines(content), Seq::empty(), Map::empty())
}

/// A line the parser skips: blank once trimmed, or a comment starting with `;` or `#`.
pub open spec fn ignorable_line(line: Seq<char>) -> bool {
    let l = trim(line);
    l.len() == 0 || l[0] == ';' || l[0] == '#'
}

/// The lines that are not blank or comments, in order.
pub open spec fn meaningful_lines(lines: Seq<Seq<char>>) -> Seq<Seq<char>>
    decreases lines.len(),
{
    if lines.len() == 0 {
        Seq::empty()
    } else if ignorable_line(lines[0]) {
        meaningful_lines(lines.drop_first())
    } else {
        seq![lines[0]] + meaningful_lines(lines.drop_first())
    }
}

/// Reading lines from any state gives what reading only their meaningful lines gives.
proof fn lemma_fold_meaningful(lines: Seq<Seq<char>>, cur: Seq<char>, acc: IniModel)
    ensures
        ini_fold(lines, cur, acc) == ini_fold(meaningful_lines(lines), cur, acc),
    decreases lines.len(),
{
    if lines.len() > 0 {
        let rest = lines.drop_first();
        lemma_fold_meaningful(rest, cur, acc);
        if !ignorable_line(lines[0]) {
            let (c, a) = ini_step(lines[0], cur, acc);
            lemma_fold_meaningful(rest, c, a);
            let m = meaningful_lines(lines);
            assert(m[0] == lines[0]);
            assert(m.drop_first() =~= meaningful_lines(rest));
        }
    }
}

/// Blank lines and comment lines do not change what a file holds: two texts whose
/// other lines are the same, in the same order, parse to the same sections.
pub proof fn lemma_blank_and_comment_lines_ignored(a: Seq<char>, b: Seq<char>)
    requires
        meaningful_lines(split_lines(a)) == meaningful_lines(split_lines(b)),
    ensures
        ini_model(a) == ini_model(b),
{
    lemma_fold_meaningful(split_lines(a), Seq::empty(), Map::empty());
    lemma_fold_meaningful(split_lines(b), Seq::empty(), Map::empty());
}

pub proof fn lemma_first_index_of(s: Seq<char>, c: char)
    ensures
        match first_index_of(s, c) {
            Some(i) => 0 <= i < s.len() && s[i] == c && forall|j: int| 0 <= j < i ==> s[j] != c,
            None => forall|j: int| 0 <= j < s.len() ==> s[j] != c,
        },
    decreases s.len(),
{
    if s.len() > 0 {
        lemma_first_index_of(s.drop_first(), c);
        if s[0] != c {
            match first_index_of(s.drop_first(), c) {
                Some(i) => {
                    assert forall|j: int| 0 <= j < i + 1 implies s[j] != c by {
                        if j > 0 {
                            assert(s[j] == s.drop_first()[j - 1]);
                        }
                    }
                },
                None => {
                    assert forall|j: int| 0 <= j < s.len() implies s[j] != c by {
                        if j > 0 {
                            assert(s[j] == s.drop_first()[j - 1]);
                        }
                    }
                },
            }
        }
    }
}

/// One `key=value` pair of a section.
pub struct IniEntry {
    pub key: String,
    pub value: String,
}

/// A named section of an INI file.
pub struct IniSection {
    name: String,
    entries: Vec<IniEntry>,
}

/// A parsed INI file: its sections, each named once.
pub struct IniConfig {
    sections: Vec<IniSection>,
}

impl IniSection {
    /// The keys, in the order of the entries.
    pub closed spec fn keys(&self) -> Seq<Seq<char>> {
        self.entries@.map_values(|e: IniEntry| e.key@)
    }

    /// The section's name.
    pub closed spec fn name_view(&self) -> Seq<char> {
        self.name@
    }

    /// No key occurs twice.
    pub closed spec fn wf(&self) -> bool {
        self.keys().no_duplicates()
    }

    /// The section's name.
    pub fn name(&self) -> (r: &String)
        ensures
            r@ == self.name_view(),
    {
        &self.name
    }

    /// The number of keys.
    pub fn len(&self) -> (r: usize)
        requires
            self.wf(),
        ensures
            r == self@.dom().len(),
    {
        proof {
            self.lemma_dom();
            self.keys().unique_seq_to_set();
        }
        self.entries.len()
    }

    proof fn lemma_dom(&self)
        ensures
            self@.dom() == self.keys().to_set(),
            self@.dom().finite(),
    {
        assert(self@.dom() =~= self.keys().to_set());
    }

    proof fn lemma_lookup(&self, i: int)
        requires
            self.wf(),
            0 <= i < self.entries.len(),
        ensures
            self@.contains_key(self.entries@[i].key@),
            self@[self.entries@[i].key@] == self.entries@[i].value@,
    {
        let k = self.entries@[i].key@;
        assert(self.keys()[i] == k);
        assert(self.keys().contains(k));
        let j = self.keys().index_of(k);
        assert(self.keys()[j] == k);
    }

    /// The index of the entry whose key is `key`, if any.
    fn find(&self, key: &String) -> (r: Option<usize>)
        requires
            self.wf(),
        ensures
            match r {
                Some(i) => i < self.entries.len() && self.entries@[i as int].key@ == key@,
                None => !self@.contains_key(key@),
            },
    {
        let mut i: usize = 0;
        while i < self.entries.len()
            invariant
                i <= self.entries.len(),
                forall|j: int| 0 <= j < i ==> self.entries@[j].key@ != key@,
            decreases self.entries.len() - i,
        {
            if self.entries[i].key == *key {
                return Some(i);
            }
            i = i + 1;
        }
        proof {
            if self.keys().contains(key@) {
                let j = self.keys().index_of(key@);
                assert(self.keys()[j] == key@);
                assert(self.entries@[j].key@ == key@);
            }
        }
        None
    }

    /// The value of `key`, if the section holds it.
    pub fn get(&self, key: &str) -> (r: Option<&String>)
        requires
            self.wf(),
        ensures
            match r {
                Some(v) => self@.contains_key(key@) && v@ == self@[key@],
                None => !self@.contains_key(key@),
            },
    {
        let k = String::from_str(key);
        match self.find(&k) {
            Some(i) => {
                proof {
                    self.lemma_lookup(i as int);
                }
                Some(&self.entries[i].value)
            },
            None => None,
        }
    }

    /// Sets `key` to `value`, replacing any earlier value.
    fn insert(&mut self, key: String, value: String)
        requires
            old(self).wf(),
        ensures
            final(self).wf(),
            final(self)@ == old(self)@.insert(key@, value@),
            final(self).name_view() == old(self).name_view(),
    {
        let ghost k = key@;
        let ghost v = value@;
        match self.find(&key) {
            Some(i) => {
                let ghost old_keys = self.keys();
                self.entries.set(i, IniEntry { key, value });
                assert(self.keys() =~= old_keys.update(i as int, k));
                assert(old_keys[i as int] == k);
                assert(self.keys() =~= old_keys);
                assert(self@ =~= old(self)@.insert(k, v)) by {
                    assert forall|q: Seq<char>| #[trigger] self@.contains_key(q) implies self@[q]
                        == old(self)@.insert(k, v)[q] by {
                        let j = self.keys().index_of(q);
                        assert(self.keys()[j] == q);
                        self.lemma_lookup(j);
                        if j != i {
                            old(self).lemma_lookup(j);
                        }
                    }
                    assert forall|q: Seq<char>| old(self)@.insert(k, v).contains_key(q) implies
                        #[trigger] self@.contains_key(q) by {
                        if q != k {
                            assert(old_keys.contains(q));
                        }
                    }
                }
            },
            None => {
                let ghost old_keys = self.keys();
                self.entries.push(IniEntry { key, value });
                assert(self.keys() =~= old_keys.push(k));
                assert(!old_keys.contains(k));
                assert(self.wf()) by {
                    assert forall|a: int, b: int|
                        0 <= a < self.keys().len() && 0 <= b < self.keys().len() && a != b
                        implies self.keys()[a] != self.keys()[b] by {
                        if a == old_keys.len() {
                            assert(old_keys[b] == self.keys()[b]);
                        } else if b == old_keys.len() {
                            assert(old_keys[a] == self.keys()[a]);
                        }
                    }
                }
                assert(self@ =~= old(self)@.insert(k, v)) by {
                    let n = old_keys.len() as int;
                    assert(self.keys()[n] == k);
                    self.lemma_lookup(n);
                    assert forall|q: Seq<char>| #[trigger] self@.contains_key(q) implies self@[q]
                        == old(self)@.insert(k, v)[q] by {
                        let j = self.keys().index_of(q);
                        assert(self.keys()[j] == q);
                        self.lemma_lookup(j);
                        if j != n {
                            old(self).lemma_lookup(j);
                        }
                    }
                    assert forall|q: Seq<char>| old(self)@.insert(k, v).contains_key(q) implies
                        #[trigger] self@.contains_key(q) by {
                        if q != k {
                            assert(old_keys.contains(q));
                            let j = old_keys.index_of(q);
                            assert(self.keys()[j] == q);
                        }
                    }
                }
            },
        }
    }
}

impl View for IniSection {
    type V = SectionModel;

    closed spec fn view(&self) -> SectionModel {
        Map::new(
            |k: Seq<char>| self.keys().contains(k),
            |k: Seq<char>| self.entries@[self.keys().index_of(k)].value@,
        )
    }
}

impl IniConfig {
    /// The section names, in order.
    pub closed spec fn names(&self) -> Seq<Seq<char>> {
        self.sections@.map_values(|s: IniSection| s.name@)
    }

    /// Every section is well formed and no name occurs twice.
    pub closed spec fn wf(&self) -> bool {
        &&& self.names().no_duplicates()
        &&& forall|i: int| 0 <= i < self.sections.len() ==> #[trigger] self.sections@[i].wf()
    }

    fn new() -> (r: IniConfig)
        ensures
            r.wf(),
            r@ == IniModel::empty(),
    {
        let r = IniConfig { sections: Vec::new() };
        assert(r@ =~= IniModel::empty());
        r
    }

    /// The number of sections.
    pub fn len(&self) -> (r: usize)
        requires
            self.wf(),
        ensures
            r == self@.dom().len(),
    {
        proof {
            assert(self@.dom() =~= self.names().to_set());
            self.names().unique_seq_to_set();
        }
        self.sections.len()
    }

    proof fn lemma_lookup(&self, i: int)
        requires
            self.wf(),
            0 <= i < self.sections.len(),
        ensures
            self@.contains_key(self.sections@[i].name@),
            self@[self.sections@[i].name@] == self.sections@[i]@,
    {
        let k = self.sections@[i].name@;
        assert(self.names()[i] == k);
        assert(self.names().contains(k));
        let j = self.names().index_of(k);
        assert(self.names()[j] == k);
    }

    /// The index of the section named `name`, if any.
    fn find(&self, name: &String) -> (r: Option<usize>)
        requires
            self.wf(),
        ensures
            match r {
                Some(i) => i < self.sections.len() && self.sections@[i as int].name@ == name@,
                None => !self@.contains_key(name@),
            },
    {
        let mut i: usize = 0;
        while i < self.sections.len()
            invariant
                i <= self.sections.len(),
                forall|j: int| 0 <= j < i ==> self.sections@[j].name@ != name@,
            decreases self.sections.len() - i,
        {
            if self.sections[i].name == *name {
                return Some(i);
            }
            i = i + 1;
        }
        proof {
            if self.names().contains(name@) {
                let j = self.names().index_of(name@);
                assert(self.names()[j] == name@);
            }
        }
        None
    }

    /// The section named `name`, if the file has one.
    pub fn get(&self, name: &str) -> (r: Option<&IniSection>)
        requires
            self.wf(),
        ensures
            match r {
                Some(s) => self@.contains_key(name@) && s@ == self@[name@] && s.wf()
                    && s.name_view() == name@,
                None => !self@.contains_key(name@),
            },
    {
        let k = String::from_str(name);
        match self.find(&k) {
            Some(i) => {
                proof {
                    self.lemma_lookup(i as int);
                }
                Some(&self.sections[i])
            },
            None => None,
        }
    }

    /// The index of the section named `name`, created empty if it is new.
    fn entry(&mut self, name: String) -> (r: usize)
        requires
            old(self).wf(),
        ensures
            final(self).wf(),
            r < final(self).sections.len(),
            final(self).sections@[r as int].name@ == name@,
            final(self)@ == (if old(self)@.contains_key(name@) {
                old(self)@
            } else {
                old(self)@.insert(name@, Map::empty())
            }),
    {
        match self.find(&name) {
            Some(i) => {
                proof {
                    self.lemma_lookup(i as int);
                }
                i
            },
            None => {
                let ghost n = name@;
                let ghost old_names = self.names();
                let sec = IniSection { name, entries: Vec::new() };
                assert(sec@ =~= Map::<Seq<char>, Seq<char>>::empty());
                assert(sec.wf());
                self.sections.push(sec);
                let idx = self.sections.len() - 1;
                assert(self.names() =~= old_names.push(n));
                assert(!old_names.contains(n));
                assert(self.wf()) by {
                    assert forall|a: int, b: int|
                        0 <= a < self.names().len() && 0 <= b < self.names().len() && a != b
                        implies self.names()[a] != self.names()[b] by {
                        if a == old_names.len() {
                            assert(old_names[b] == self.names()[b]);
                        } else if b == old_names.len() {
                            assert(old_names[a] == self.names()[a]);
                        }
                    }
                    assert forall|i: int| 0 <= i < self.sections.len() implies #[trigger] self.sections@[i].wf() by {
                        if i < old_names.len() {
                            assert(self.sections@[i] == old(self).sections@[i]);
                        }
                    }
                }
                assert(self@ =~= old(self)@.insert(n, Map::empty())) by {
                    let m = old_names.len() as int;
                    self.lemma_lookup(m);
                    assert forall|q: Seq<char>| #[trigger] self@.contains_key(q) implies self@[q]
                        == old(self)@.insert(n, Map::empty())[q] by {
                        let j = self.names().index_of(q);
                        assert(self.names()[j] == q);
                        self.lemma_lookup(j);
                        if j != m {
                            assert(self.sections@[j] == old(self).sections@[j]);
                            old(self).lemma_lookup(j);
                        }
                    }
                    assert forall|q: Seq<char>| old(self)@.insert(n, Map::empty()).contains_key(q) implies
                        #[trigger] self@.contains_key(q) by {
                        if q != n {
                            assert(old_names.contains(q));
                            let j = old_names.index_of(q);
                            assert(self.names()[j] == q);
                        }
                    }
                }
                idx
            },
        }
    }

    /// Sets `key` to `value` in the section at index `i`.
    fn insert_at(&mut self, i: usize, key: String, value: String)
        requires
            old(self).wf(),
            i < old(self).sections.len(),
        ensures
            final(self).wf(),
            final(self).sections.len() == old(self).sections.len(),
            forall|j: int| 0 <= j < final(self).sections.len() ==>
                #[trigger] final(self).sections@[j].name@ == old(self).sections@[j].name@,
            final(self)@ == old(self)@.insert(
                old(self).sections@[i as int].name@,
                old(self)@[old(self).sections@[i as int].name@].insert(key@, value@),
            ),
    {
        let ghost n = self.sections@[i as int].name@;
        let ghost old_names = self.names();
        proof {
            old(self).lemma_lookup(i as int);
        }
        let mut sec = self.sections.remove(i);
        sec.insert(key, value);
        self.sections.insert(i, sec);
        assert(self.names() =~= old_names);
        assert(self.wf()) by {
            assert forall|j: int| 0 <= j < self.sections.len() implies #[trigger] self.sections@[j].wf() by {
                if j != i {
                    assert(self.sections@[j] == old(self).sections@[j]);
                }
            }
        }
        let ghost target = old(self)@.insert(n, old(self)@[n].insert(key@, value@));
        assert(self@ =~= target) by {
            self.lemma_lookup(i as int);
            assert forall|q: Seq<char>| #[trigger] self@.contains_key(q) implies self@[q]
                == target[q] by {
                let j = self.names().index_of(q);
                assert(self.names()[j] == q);
                self.lemma_lookup(j);
                if j != i {
                    assert(self.sections@[j] == old(self).sections@[j]);
                    old(self).lemma_lookup(j);
                }
            }
            assert forall|q: Seq<char>| target.contains_key(q) implies
                #[trigger] self@.contains_key(q) by {
                if q != n {
                    assert(old_names.contains(q));
                    let j = old_names.index_of(q);
                    assert(self.names()[j] == q);
                }
            }
        }
    }
}

impl View for IniConfig {
    type V = IniModel;

    closed spec fn view(&self) -> IniModel {
        Map::new(
            |k: Seq<char>| self.names().contains(k),
            |k: Seq<char>| self.sections@[self.names().index_of(k)]@,
        )
    }
}

proof fn lemma_split_step(s: Seq<char>, pos: int, k: int)
    requires
        0 <= pos <= s.len(),
        first_index_of(s.skip(pos), '\n') == Some(k),
    ensures
        pos + k < s.len(),
        split_lines(s.skip(pos)) == seq![s.subrange(pos, pos + k)] + split_lines(s.skip(pos + k + 1)),
{
    lemma_first_index_of(s.skip(pos), '\n');
    assert(s.skip(pos).take(k) =~= s.subrange(pos, pos + k));
    assert(s.skip(pos).skip(k + 1) =~= s.skip(pos + k + 1));
}

proof fn lemma_fold_step(line: Seq<char>, rest: Seq<Seq<char>>, cur: Seq<char>, acc: IniModel)
    ensures
        ini_fold(seq![line] + rest, cur, acc) == ini_fold(
            rest,
            ini_step(line, cur, acc).0,
            ini_step(line, cur, acc).1,
        ),
{
    assert((seq![line] + rest).drop_first() =~= rest);
    assert((seq![line] + rest)[0] == line);
}

/// Parses INI text into its sections, as `ini_model` describes.
pub fn parse_ini(content: &str) -> (r: IniConfig)
    ensures
        r.wf(),
        r@ == ini_model(content@),
{
    let cs = str_to_chars(content);
    let n = cs.len();
    let mut cfg = IniConfig::new();
    // The current section: its index when its name is not empty.
    let mut cur_idx: Option<usize> = None;
    let ghost mut cur: Seq<char> = Seq::empty();
    let mut pos: usize = 0;
    assert(cs@.skip(0) =~= cs@);
    loop
        invariant
            pos <= n == cs.len(),
            cfg.wf(),
            ini_fold(split_lines(cs@.skip(pos as int)), cur, cfg@) == ini_model(content@),
            cs@ == content@,
            cur.len() > 0 <==> cur_idx is Some,
            match cur_idx {
                Some(ci) => ci < cfg.sections.len() && cfg.sections@[ci as int].name@ == cur,
                None => true,
            },
        decreases n - pos,
    {
        let nl = find_char(&cs, pos, n, '\n');
        let end = match nl {
            Some(e) => e,
            None => n,
        };
        let ghost line = cs@.subrange(pos as int, end as int);
        let ghost rest_lines: Seq<Seq<char>> = match nl {
            Some(e) => split_lines(cs@.skip(e + 1)),
            None => Seq::empty(),
        };
        proof {
            assert(cs@.subrange(pos as int, n as int) =~= cs@.skip(pos as int));
            match nl {
                Some(e) => {
                    let k = (e - pos) as int;
                    lemma_first_index_of(cs@.skip(pos as int), '\n');
                    match first_index_of(cs@.skip(pos as int), '\n') {
                        Some(k2) => assert(k2 == k),
                        None => assert(false),
                    }
                    lemma_split_step(cs@, pos as int, k);
                },
                None => {
                    assert(split_lines(cs@.skip(pos as int)) == seq![cs@.skip(pos as int)]);
                    assert(seq![line] + rest_lines =~= seq![line]);
                    assert(line =~= cs@.skip(pos as int));
                },
            }
            lemma_fold_step(line, rest_lines, cur, cfg@);
        }
        let ghost next = ini_step(line, cur, cfg@);
        // Process one line.
        let (a, b) = trim_bounds(&cs, pos, end);
        let ghost l = cs@.subrange(a as int, b as int);
        assert(l == crate::text::trim(line));
        if a == b || cs[a] == ';' || cs[a] == '#' {
        } else if cs[a] == '[' && cs[b - 1] == ']' {
            assert(l[0] == '[' && l.last() == ']');
            assert(b - a >= 2);
            let name = substring(&cs, a + 1, b - 1);
            assert(name@ =~= l.subrange(1, l.len() - 1));
            let ghost nm = name@;
            let nonempty = b - 1 > a + 1;
            let idx = cfg.entry(name);
            proof {
                cur = nm;
            }
            if nonempty {
                cur_idx = Some(idx);
            } else {
                cur_idx = None;
            }
        } else {
            match find_char(&cs, a, b, '=') {
                Some(p) => {
                    proof {
                        lemma_first_index_of(l, '=');
                    }
                    match cur_idx {
                        Some(ci) => {
                            let (ka, kb) = trim_bounds(&cs, a, p);
                            let (va, vb) = trim_bounds(&cs, p + 1, b);
                            assert(l.take(p - a) =~= cs@.subrange(a as int, p as int));
                            assert(l.skip(p - a + 1) =~= cs@.subrange(p + 1, b as int));
                            let key = substring(&cs, ka, kb);
                            let value = substring(&cs, va, vb);
                            proof {
                                cfg.lemma_lookup(ci as int);
                            }
                            cfg.insert_at(ci, key, value);
                        },
                        None => {},
                    }
                },
                None => {},
            }
        }
        assert(cur == next.0);
        assert(cfg@ == next.1);
        match nl {
            Some(e) => {
                pos = e + 1;
            },
            None => {
                assert(ini_fold(Seq::<Seq<char>>::empty(), cur, cfg@) == cfg@);
                return cfg;
            },
        }
    }
}

} // verus!
