use vstd::prelude::*;

use crate::text::{find, find_in, split, split_spans, substring, trim, trim_span};

verus! {

/// A configuration string that is not in the expected shape.
#[derive(Debug, Clone, Copy, PartialEq, Eq)]
pub enum ConfigError {
    /// A non-blank entry of the credential table without `=`.
    MalformedTokenEntry,
    /// A non-blank entry of the allowlist without `=`.
    MalformedAllowlistEntry,
}

/// The names held by a list of strings.
pub open spec fn names(v: Seq<String>) -> Set<Seq<char>> {
    Set::new(|n: Seq<char>| exists|j: int| 0 <= j < v.len() && v[j]@ == n)
}

/// Tool names of an allowlist entry: its `|`-separated pieces, trimmed, blank ones left out.
pub open spec fn tool_names(s: Seq<char>) -> Set<Seq<char>> {
    Set::new(
        |n: Seq<char>|
            n.len() > 0 && exists|k: int|
                0 <= k < split(s, '|').len() && trim(#[trigger] split(s, '|')[k]) == n,
    )
}

/// Folds `principal=token` entries into a map from token to principal; a later
/// entry for the same token replaces an earlier one, blank entries are
/// skipped, and an entry without `=` makes the whole table invalid.
pub open spec fn token_entries(pieces: Seq<Seq<char>>) -> Option<Map<Seq<char>, Seq<char>>>
    decreases pieces.len(),
{
    if pieces.len() == 0 {
        Some(Map::empty())
    } else {
        match token_entries(pieces.drop_last()) {
            None => None,
            Some(m) => {
                let p = pieces.last();
                if trim(p).len() == 0 {
                    Some(m)
                } else {
                    match find(p, '=') {
                        None => None,
                        Some(i) => Some(
                            m.insert(trim(p.subrange(i + 1, p.len() as int)), trim(p.subrange(0, i))),
                        ),
                    }
                }
            },
        }
    }
}

/// The credential table that a comma-separated `principal=token` list describes.
pub open spec fn token_table(input: Seq<char>) -> Option<Map<Seq<char>, Seq<char>>> {
    token_entries(split(input, ','))
}

/// Folds `principal=tool1|tool2` entries into a map from principal to tool
/// names, under the same rules as `token_entries`.
pub open spec fn allow_entries(pieces: Seq<Seq<char>>) -> Option<Map<Seq<char>, Set<Seq<char>>>>
    decreases pieces.len(),
{
    if pieces.len() == 0 {
        Some(Map::empty())
    } else {
        match allow_entries(pieces.drop_last()) {
            None => None,
            Some(m) => {
                let p = pieces.last();
                if trim(p).len() == 0 {
                    Some(m)
                } else {
                    match find(p, '=') {
                        None => None,
                        Some(i) => Some(
                            m.insert(
                                trim(p.subrange(0, i)),
                                tool_names(p.subrange(i + 1, p.len() as int)),
                            ),
                        ),
                    }
                }
            },
        }
    }
}

/// The allowlist that a comma-separated `principal=tool1|tool2` list describes.
pub open spec fn allow_table(input: Seq<char>) -> Option<Map<Seq<char>, Set<Seq<char>>>> {
    allow_entries(split(input, ','))
}

spec fn find_token(e: Seq<(String, String)>, t: Seq<char>) -> Option<Seq<char>>
    decreases e.len(),
{
    if e.len() == 0 {
        None
    } else if e.last().0@ == t {
        Some(e.last().1@)
    } else {
        find_token(e.drop_last(), t)
    }
}

/// Static map from a presented credential to the principal it identifies.
pub struct Credentials {
    entries: Vec<(String, String)>,
}

impl View for Credentials {
    type V = Map<Seq<char>, Seq<char>>;

    closed spec fn view(&self) -> Map<Seq<char>, Seq<char>> {
        Map::new(
            |t: Seq<char>| find_token(self.entries@, t).is_some(),
            |t: Seq<char>| find_token(self.entries@, t).unwrap(),
        )
    }
}

impl Credentials {
    pub fn empty() -> (r: Self)
        ensures
            r@ == Map::<Seq<char>, Seq<char>>::empty(),
    {
        let r = Credentials { entries: Vec::new() };
        assert(r@ =~= Map::<Seq<char>, Seq<char>>::empty());
        r
    }

    /// Records that `token` identifies `principal`, replacing any earlier entry for `token`.
    pub fn insert(&mut self, token: String, principal: String)
        ensures
            final(self)@ == old(self)@.insert(token@, principal@),
    {
        let ghost before = self.entries@;
        self.entries.push((token, principal));
        assert(self.entries@.drop_last() =~= before);
        assert(self@ =~= old(self)@.insert(token@, principal@));
    }

    /// Exact-match lookup of a credential.
    pub fn resolve(&self, token: &str) -> (r: Option<String>)
        ensures
            match r {
                Some(p) => self@.contains_key(token@) && self@[token@] == p@,
                None => !self@.contains_key(token@),
            },
    {
        let key = token.to_owned();
        let mut i = self.entries.len();
        assert(self.entries@.subrange(0, i as int) =~= self.entries@);
        while i > 0
            invariant
                i <= self.entries.len(),
                key@ == token@,
                find_token(self.entries@, token@) == find_token(
                    self.entries@.subrange(0, i as int),
                    token@,
                ),
            decreases i,
        {
            assert(self.entries@.subrange(0, i as int).drop_last() =~= self.entries@.subrange(
                0,
                i - 1,
            ));
            if self.entries[i - 1].0.eq(&key) {
                return Some(self.entries[i - 1].1.clone());
            }
            i = i - 1;
        }
        None
    }
}

spec fn find_tools(e: Seq<(String, Vec<String>)>, p: Seq<char>) -> Option<Seq<String>>
    decreases e.len(),
{
    if e.len() == 0 {
        None
    } else if e.last().0@ == p {
        Some(e.last().1@)
    } else {
        find_tools(e.drop_last(), p)
    }
}

/// Static map from a principal to the set of tool names it may invoke.
pub struct Allowlist {
    entries: Vec<(String, Vec<String>)>,
}

impl View for Allowlist {
    type V = Map<Seq<char>, Set<Seq<char>>>;

    closed spec fn view(&self) -> Map<Seq<char>, Set<Seq<char>>> {
        Map::new(
            |p: Seq<char>| find_tools(self.entries@, p).is_some(),
            |p: Seq<char>| names(find_tools(self.entries@, p).unwrap()),
        )
    }
}

impl Allowlist {
    pub fn empty() -> (r: Self)
        ensures
            r@ == Map::<Seq<char>, Set<Seq<char>>>::empty(),
    {
        let r = Allowlist { entries: Vec::new() };
        assert(r@ =~= Map::<Seq<char>, Set<Seq<char>>>::empty());
        r
    }

    /// Sets the tools of `principal` to `tools`, replacing any earlier entry for it.
    pub fn insert(&mut self, principal: String, tools: Vec<String>)
        ensures
            final(self)@ == old(self)@.insert(principal@, names(tools@)),
    {
        let ghost before = self.entries@;
        self.entries.push((principal, tools));
        assert(self.entries@.drop_last() =~= before);
        assert(self@ =~= old(self)@.insert(principal@, names(tools@)));
    }

    /// Whether `principal_id` has an entry that names `tool_name` exactly.
    pub fn is_allowed(&self, principal_id: &str, tool_name: &str) -> (r: bool)
        ensures
            r == (self@.contains_key(principal_id@) && self@[principal_id@].contains(tool_name@)),
    {
        let key = principal_id.to_owned();
        let tool = tool_name.to_owned();
        let mut i = self.entries.len();
        assert(self.entries@.subrange(0, i as int) =~= self.entries@);
        while i > 0
            invariant
                i <= self.entries.len(),
                key@ == principal_id@,
                tool@ == tool_name@,
                find_tools(self.entries@, principal_id@) == find_tools(
                    self.entries@.subrange(0, i as int),
                    principal_id@,
                ),
            decreases i,
        {
            assert(self.entries@.subrange(0, i as int).drop_last() =~= self.entries@.subrange(
                0,
                i - 1,
            ));
            if self.entries[i - 1].0.eq(&key) {
                let tools = &self.entries[i - 1].1;
                assert(find_tools(self.entries@, principal_id@) == Some(tools@));
                assert(self@.contains_key(principal_id@));
                assert(self@[principal_id@] == names(tools@));
                let mut j: usize = 0;
                while j < tools.len()
                    invariant
                        j <= tools.len(),
                        tool@ == tool_name@,
                        self@.contains_key(principal_id@),
                        self@[principal_id@] == names(tools@),
                        forall|m: int| 0 <= m < j ==> tools[m]@ != tool_name@,
                    decreases tools.len() - j,
                {
                    if tools[j].eq(&tool) {
                        assert(names(tools@).contains(tool_name@));
                        return true;
                    }
                    j = j + 1;
                }
                return false;
            }
            i = i - 1;
        }
        false
    }
}

/// Whether `allowlist` lets `principal_id` invoke `tool_name`.
pub fn is_tool_allowed(allowlist: &Allowlist, principal_id: &str, tool_name: &str) -> (r: bool)
    ensures
        r == (allowlist@.contains_key(principal_id@) && allowlist@[principal_id@].contains(
            tool_name@,
        )),
{
    allowlist.is_allowed(principal_id, tool_name)
}

proof fn lemma_token_entries_invalid(pieces: Seq<Seq<char>>, k: int)
    requires
        0 <= k <= pieces.len(),
        token_entries(pieces.subrange(0, k)) is None,
    ensures
        token_entries(pieces) is None,
    decreases pieces.len() - k,
{
    if k == pieces.len() {
        assert(pieces.subrange(0, k) =~= pieces);
    } else {
        assert(pieces.subrange(0, k + 1).drop_last() =~= pieces.subrange(0, k));
        lemma_token_entries_invalid(pieces, k + 1);
    }
}

proof fn lemma_allow_entries_invalid(pieces: Seq<Seq<char>>, k: int)
    requires
        0 <= k <= pieces.len(),
        allow_entries(pieces.subrange(0, k)) is None,
    ensures
        allow_entries(pieces) is None,
    decreases pieces.len() - k,
{
    if k == pieces.len() {
        assert(pieces.subrange(0, k) =~= pieces);
    } else {
        assert(pieces.subrange(0, k + 1).drop_last() =~= pieces.subrange(0, k));
        lemma_allow_entries_invalid(pieces, k + 1);
    }
}

/// Parses a comma-separated list of `principal=token` entries into the
/// credential table; blank entries are skipped and both sides are trimmed.
pub fn parse_tokens(input: &str) -> (r: Result<Credentials, ConfigError>)
    ensures
        match r {
            Ok(c) => token_table(input@) == Some(c@),
            Err(e) => token_table(input@) is None && e == ConfigError::MalformedTokenEntry,
        },
{
    let spans = split_spans(input, ',');
    let ghost pieces = split(input@, ',');
    let mut table = Credentials::empty();
    let mut k: usize = 0;
    assert(pieces.subrange(0, 0) =~= Seq::<Seq<char>>::empty());
    while k < spans.len()
        invariant
            pieces == split(input@, ','),
            spans.len() == pieces.len(),
            forall|j: int| 0 <= j < spans.len() ==> (#[trigger] spans[j]).0 <= spans[j].1 <= input@.len(),
            forall|j: int|
                0 <= j < spans.len() ==> input@.subrange(spans[j].0 as int, spans[j].1 as int)
                    == #[trigger] pieces[j],
            k <= spans.len(),
            token_entries(pieces.subrange(0, k as int)) == Some(table@),
        decreases spans.len() - k,
    {
        let (lo, hi) = spans[k];
        let ghost p = pieces[k as int];
        assert(p == input@.subrange(lo as int, hi as int));
        assert(pieces.subrange(0, k + 1).drop_last() =~= pieces.subrange(0, k as int));
        assert(pieces.subrange(0, k + 1).last() == p);
        let (a, b) = trim_span(input, lo, hi);
        if a < b {
            match find_in(input, lo, hi, '=') {
                None => {
                    proof {
                        lemma_token_entries_invalid(pieces, k + 1);
                    }
                    return Err(ConfigError::MalformedTokenEntry);
                },
                Some(e) => {
                    let (ta, tb) = trim_span(input, e + 1, hi);
                    let (pa, pb) = trim_span(input, lo, e);
                    assert(p.subrange(e - lo + 1, p.len() as int) =~= input@.subrange(
                        e + 1,
                        hi as int,
                    ));
                    assert(p.subrange(0, e - lo) =~= input@.subrange(lo as int, e as int));
                    table.insert(substring(input, ta, tb), substring(input, pa, pb));
                },
            }
        }
        k = k + 1;
    }
    assert(pieces.subrange(0, pieces.len() as int) =~= pieces);
    Ok(table)
}

/// The tool names in `s[lo..hi]`: its `|`-separated pieces, trimmed, blank ones left out.
fn parse_tools(s: &str, lo: usize, hi: usize) -> (r: Vec<String>)
    requires
        lo <= hi <= s@.len(),
    ensures
        names(r@) == tool_names(s@.subrange(lo as int, hi as int)),
{
    let part = s.substring_char(lo, hi);
    let spans = split_spans(part, '|');
    let ghost pieces = split(part@, '|');
    let mut tools: Vec<String> = Vec::new();
    let mut k: usize = 0;
    while k < spans.len()
        invariant
            pieces == split(part@, '|'),
            spans.len() == pieces.len(),
            forall|j: int| 0 <= j < spans.len() ==> (#[trigger] spans[j]).0 <= spans[j].1 <= part@.len(),
            forall|j: int|
                0 <= j < spans.len() ==> part@.subrange(spans[j].0 as int, spans[j].1 as int)
                    == #[trigger] pieces[j],
            k <= spans.len(),
            forall|n: Seq<char>|
                names(tools@).contains(n) <==> (n.len() > 0 && exists|j: int|
                    0 <= j < k && trim(#[trigger] pieces[j]) == n),
        decreases spans.len() - k,
    {
        let (a, b) = trim_span(part, spans[k].0, spans[k].1);
        let ghost before = tools@;
        let ghost piece = pieces[k as int];
        assert(part@.subrange(a as int, b as int) == trim(piece));
        if a < b {
            tools.push(substring(part, a, b));
        }
        proof {
            assert forall|n: Seq<char>|
                names(tools@).contains(n) <==> (n.len() > 0 && exists|j: int|
                    0 <= j < k + 1 && trim(#[trigger] pieces[j]) == n) by {
                if names(tools@).contains(n) {
                    let m = choose|m: int| 0 <= m < tools@.len() && tools@[m]@ == n;
                    if m < before.len() {
                        assert(names(before).contains(n));
                    } else {
                        assert(trim(pieces[k as int]) == n);
                    }
                }
                if n.len() > 0 && exists|j: int| 0 <= j < k + 1 && trim(#[trigger] pieces[j]) == n {
                    let j = choose|j: int| 0 <= j < k + 1 && trim(#[trigger] pieces[j]) == n;
                    if j < k {
                        assert(names(before).contains(n));
                        let m = choose|m: int| 0 <= m < before.len() && before[m]@ == n;
                        assert(tools@[m] == before[m]);
                    } else {
                        assert(tools@[tools@.len() - 1]@ == n);
                    }
                }
            }
        }
        k = k + 1;
    }
    assert(names(tools@) =~= tool_names(part@));
    tools
}

/// Parses a comma-separated list of `principal=tool1|tool2` entries into the
/// allowlist; blank entries and blank tool names are skipped, names are trimmed.
pub fn parse_allowlist(input: &str) -> (r: Result<Allowlist, ConfigError>)
    ensures
        match r {
            Ok(a) => allow_table(input@) == Some(a@),
            Err(e) => allow_table(input@) is None && e == ConfigError::MalformedAllowlistEntry,
        },
{
    let spans = split_spans(input, ',');
    let ghost pieces = split(input@, ',');
    let mut table = Allowlist::empty();
    let mut k: usize = 0;
    assert(pieces.subrange(0, 0) =~= Seq::<Seq<char>>::empty());
    while k < spans.len()
        invariant
            pieces == split(input@, ','),
            spans.len() == pieces.len(),
            forall|j: int| 0 <= j < spans.len() ==> (#[trigger] spans[j]).0 <= spans[j].1 <= input@.len(),
            forall|j: int|
                0 <= j < spans.len() ==> input@.subrange(spans[j].0 as int, spans[j].1 as int)
                    == #[trigger] pieces[j],
            k <= spans.len(),
            allow_entries(pieces.subrange(0, k as int)) == Some(table@),
        decreases spans.len() - k,
    {
        let (lo, hi) = spans[k];
        let ghost p = pieces[k as int];
        assert(p == input@.subrange(lo as int, hi as int));
        assert(pieces.subrange(0, k + 1).drop_last() =~= pieces.subrange(0, k as int));
        assert(pieces.subrange(0, k + 1).last() == p);
        let (a, b) = trim_span(input, lo, hi);
        if a < b {
            match find_in(input, lo, hi, '=') {
                None => {
                    proof {
                        lemma_allow_entries_invalid(pieces, k + 1);
                    }
                    return Err(ConfigError::MalformedAllowlistEntry);
                },
                Some(e) => {
                    let (pa, pb) = trim_span(input, lo, e);
                    assert(p.subrange(e - lo + 1, p.len() as int) =~= input@.subrange(
                        e + 1,
                        hi as int,
                    ));
                    assert(p.subrange(0, e - lo) =~= input@.subrange(lo as int, e as int));
                    let tools = parse_tools(input, e + 1, hi);
                    table.insert(substring(input, pa, pb), tools);
                },
            }
        }
        k = k + 1;
    }
    assert(pieces.subrange(0, pieces.len() as int) =~= pieces);
    Ok(table)
}

} // verus!
