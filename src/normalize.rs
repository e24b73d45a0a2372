//! Message normalization: an ordered cascade of substitutions that replaces
//! the variable parts of a message by placeholders, so that messages of one
//! shape group under one key.
use vstd::prelude::*;
use crate::pattern::{regex_replaced, regex_valid, Pattern};
use crate::text::{trim, trim_of};

verus! {

/// The substitution cascade, in the order it is applied: pattern text and
/// replacement.
pub open spec fn normalize_table_spec() -> Seq<(Seq<char>, Seq<char>)> {
    seq![
        (r"[0-9a-fA-F]{8}-[0-9a-fA-F]{4}-[0-9a-fA-F]{4}-[0-9a-fA-F]{4}-[0-9a-fA-F]{12}"@, "<UUID>"@),
        (r"([0-9a-fA-F]{2}:){5}[0-9a-fA-F]{2}"@, "<MAC>"@),
        (r"[0-9a-fA-F:]{15,}"@, "<IPv6>"@),
        (r"\d{1,3}\.\d{1,3}\.\d{1,3}\.\d{1,3}"@, "<IP>"@),
        (r"\d{4}-\d{2}-\d{2}[T ]\d{2}:\d{2}:\d{2}(\.\d+)?Z?"@, "<TIME>"@),
        (r"\b\d{2}:\d{2}:\d{2}(\.\d+)?\b"@, "<TIME>"@),
        (r"\b\d{4}-\d{2}-\d{2}\b"@, "<DATE>"@),
        (r"\b\d{2}/\d{2}/\d{4}\b"@, "<DATE>"@),
        (r"\b[0-9a-f]{12,64}\b"@, "<ID>"@),
        (r"0x[0-9a-fA-F]+"@, "<HEX>"@),
        (r"\b[0-9a-fA-F]{8,}\b"@, "<HEX>"@),
        (r"/[\w.\-]+(/[\w.\-]+)+/?"@, "<PATH>"@),
        (r"https?://[^\s]+"@, "<URL>"@),
        (r"[\w.\-]+@[\w.\-]+\.\w+"@, "<EMAIL>"@),
        (r"\b\d+(\.\d+)?\s*(B|KB|MB|GB|TB|KiB|MiB|GiB|TiB)\b"@, "<SIZE>"@),
        (r"\b\d+(\.\d+)?\s*(ns|us|ms|s|sec|min|h|hr|hours?|minutes?|seconds?)\b"@, "<DUR>"@),
        (r"[:\s]port\s*\d+"@, " port <PORT>"@),
        (r":\d{2,5}\b"@, ":<PORT>"@),
        (r"\[(\d+)\]"@, "[<PID>]"@),
        (r"\bpid[=:\s]*\d+"@, "pid=<PID>"@),
        (r"\b(session|request|req|tx|transaction|conn|connection)[_\-]?id[=:\s]*\S+"@, "<SESSID>"@),
        (r"\(\d+/\d+\)"@, "(<N>/<N>)"@),
        (r"\b\d+/\d+\b"@, "<N>/<N>"@),
        (r"\b\d+(\.\d+)?%"@, "<PCT>"@),
        (r"\b\d{5,}\b"@, "<N>"@),
        (r"\b\d+\.\d+\.\d+"@, "<VER>"@),
    ]
}

/// Runs of white space.
pub open spec fn space_pattern_text() -> Seq<char> {
    r"\s+"@
}

/// The rules of a table that compile, in table order.
pub open spec fn keep_valid(t: Seq<(Seq<char>, Seq<char>)>) -> Seq<(Seq<char>, Seq<char>)>
    decreases t.len(),
{
    if t.len() == 0 {
        t
    } else if regex_valid(t.last().0) {
        keep_valid(t.drop_last()).push(t.last())
    } else {
        keep_valid(t.drop_last())
    }
}

/// `s` after every rule of `rules`, first rule first.
pub open spec fn apply_rules(rules: Seq<(Seq<char>, Seq<char>)>, s: Seq<char>) -> Seq<char>
    decreases rules.len(),
{
    if rules.len() == 0 {
        s
    } else {
        regex_replaced(rules.last().0, apply_rules(rules.drop_last(), s), rules.last().1)
    }
}

fn normalize_table() -> (r: Vec<(&'static str, &'static str)>)
    ensures
        r@.len() == normalize_table_spec().len(),
        forall|i: int|
            0 <= i < r@.len() ==> (#[trigger] r@[i]).0@ == normalize_table_spec()[i].0 && r@[i].1@
                == normalize_table_spec()[i].1,
{
    let r = vec![
        (r"[0-9a-fA-F]{8}-[0-9a-fA-F]{4}-[0-9a-fA-F]{4}-[0-9a-fA-F]{4}-[0-9a-fA-F]{12}", "<UUID>"),
        (r"([0-9a-fA-F]{2}:){5}[0-9a-fA-F]{2}", "<MAC>"),
        (r"[0-9a-fA-F:]{15,}", "<IPv6>"),
        (r"\d{1,3}\.\d{1,3}\.\d{1,3}\.\d{1,3}", "<IP>"),
        (r"\d{4}-\d{2}-\d{2}[T ]\d{2}:\d{2}:\d{2}(\.\d+)?Z?", "<TIME>"),
        (r"\b\d{2}:\d{2}:\d{2}(\.\d+)?\b", "<TIME>"),
        (r"\b\d{4}-\d{2}-\d{2}\b", "<DATE>"),
        (r"\b\d{2}/\d{2}/\d{4}\b", "<DATE>"),
        (r"\b[0-9a-f]{12,64}\b", "<ID>"),
        (r"0x[0-9a-fA-F]+", "<HEX>"),
        (r"\b[0-9a-fA-F]{8,}\b", "<HEX>"),
        (r"/[\w.\-]+(/[\w.\-]+)+/?", "<PATH>"),
        (r"https?://[^\s]+", "<URL>"),
        (r"[\w.\-]+@[\w.\-]+\.\w+", "<EMAIL>"),
        (r"\b\d+(\.\d+)?\s*(B|KB|MB|GB|TB|KiB|MiB|GiB|TiB)\b", "<SIZE>"),
        (r"\b\d+(\.\d+)?\s*(ns|us|ms|s|sec|min|h|hr|hours?|minutes?|seconds?)\b", "<DUR>"),
        (r"[:\s]port\s*\d+", " port <PORT>"),
        (r":\d{2,5}\b", ":<PORT>"),
        (r"\[(\d+)\]", "[<PID>]"),
        (r"\bpid[=:\s]*\d+", "pid=<PID>"),
        (r"\b(session|request|req|tx|transaction|conn|connection)[_\-]?id[=:\s]*\S+", "<SESSID>"),
        (r"\(\d+/\d+\)", "(<N>/<N>)"),
        (r"\b\d+/\d+\b", "<N>/<N>"),
        (r"\b\d+(\.\d+)?%", "<PCT>"),
        (r"\b\d{5,}\b", "<N>"),
        (r"\b\d+\.\d+\.\d+", "<VER>"),
    ];
    r
}

/// One substitution of the cascade.
#[derive(Debug)]
pub struct NormalizeRule {
    pub pattern: Pattern,
    pub replacement: String,
}

/// The compiled cascade.
#[derive(Debug)]
pub struct NormalizeRegex {
    rules: Vec<NormalizeRule>,
    space: Option<Pattern>,
}

pub open spec fn rules_view(rules: Seq<NormalizeRule>) -> Seq<(Seq<char>, Seq<char>)> {
    rules.map_values(|r: NormalizeRule| (r.pattern@, r.replacement@))
}

impl NormalizeRegex {
    pub closed spec fn rules_spec(&self) -> Seq<(Seq<char>, Seq<char>)> {
        rules_view(self.rules@)
    }

    pub closed spec fn has_space(&self) -> bool {
        self.space is Some
    }

    pub closed spec fn wf(&self) -> bool {
        self.space matches Some(p) ==> p@ == space_pattern_text()
    }

    /// The normalized form of `m`: every rule applied in order, runs of white
    /// space collapsed to one space, the ends trimmed.
    pub open spec fn normalized(&self, m: Seq<char>) -> Seq<char> {
        let after = apply_rules(self.rules_spec(), m);
        let collapsed = if self.has_space() {
            regex_replaced(space_pattern_text(), after, " "@)
        } else {
            after
        };
        trim_of(collapsed)
    }

    /// Compiles the cascade; a rule whose pattern does not compile is left out.
    pub fn new() -> (r: NormalizeRegex)
        ensures
            r.wf(),
            r.rules_spec() == keep_valid(normalize_table_spec()),
            r.has_space() == regex_valid(space_pattern_text()),
    {
        let table = normalize_table();
        let mut rules: Vec<NormalizeRule> = Vec::new();
        let mut i: usize = 0;
        while i < table.len()
            invariant
                i <= table@.len(),
                table@.len() == normalize_table_spec().len(),
                forall|j: int|
                    0 <= j < table@.len() ==> (#[trigger] table@[j]).0@
                        == normalize_table_spec()[j].0 && table@[j].1@
                        == normalize_table_spec()[j].1,
                rules_view(rules@) == keep_valid(normalize_table_spec().take(i as int)),
            decreases table.len() - i,
        {
            let (p, rep) = table[i];
            let ghost t = normalize_table_spec();
            assert(t.take(i + 1).drop_last() =~= t.take(i as int));
            assert(t.take(i + 1).last() == t[i as int]);
            match Pattern::new(p) {
                Ok(pattern) => {
                    rules.push(NormalizeRule { pattern, replacement: rep.to_owned() });
                    assert(rules_view(rules@) =~= keep_valid(t.take(i + 1)));
                },
                Err(_) => {},
            }
            i = i + 1;
        }
        assert(normalize_table_spec().take(table@.len() as int) =~= normalize_table_spec());
        let space = match Pattern::new(r"\s+") {
            Ok(p) => Some(p),
            Err(_) => None,
        };
        NormalizeRegex { rules, space }
    }

    /// Normalizes a message for grouping.
    pub fn normalize(&self, msg: &str) -> (r: String)
        requires
            self.wf(),
        ensures
            r@ == self.normalized(msg@),
    {
        let mut result = msg.to_owned();
        let mut i: usize = 0;
        while i < self.rules.len()
            invariant
                i <= self.rules@.len(),
                result@ == apply_rules(rules_view(self.rules@).take(i as int), msg@),
            decreases self.rules.len() - i,
        {
            let rule = &self.rules[i];
            let ghost rv = rules_view(self.rules@);
            assert(rv.take(i + 1).drop_last() =~= rv.take(i as int));
            result = rule.pattern.replace_all(result.as_str(), rule.replacement.as_str());
            i = i + 1;
        }
        assert(rules_view(self.rules@).take(self.rules@.len() as int) =~= rules_view(self.rules@));
        let collapsed = match &self.space {
            Some(p) => {
                proof {
                    reveal_strlit(" ");
                }
                p.replace_all(result.as_str(), " ")
            },
            None => result,
        };
        trim(collapsed.as_str()).to_owned()
    }
}

} // verus!
