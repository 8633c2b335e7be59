//! The system resolver's configuration: which nameserver it names.
use vstd::prelude::*;
use crate::batch::{lines_of, split_lines};
use crate::error::DnsError;
use crate::text::{chars_of, has_prefix, split_tokens, starts_with_chars, string_of, strings_view, tokens, trim_chars, trim_ws};

verus! {

/// Whether a trimmed line names a nameserver: it starts with `nameserver`
/// and has a second whitespace-separated word.
pub open spec fn names_server(t: Seq<char>) -> bool {
    has_prefix(t, "nameserver"@) && tokens(t).len() >= 2
}

/// The address of the first line that names a nameserver: that line's
/// second word.
pub open spec fn first_nameserver(lines: Seq<Seq<char>>) -> Option<Seq<char>>
    decreases lines.len(),
{
    if lines.len() == 0 {
        None
    } else if names_server(trim_ws(lines[0])) {
        Some(tokens(trim_ws(lines[0]))[1])
    } else {
        first_nameserver(lines.drop_first())
    }
}

/// The message when no line names a nameserver.
pub open spec fn no_nameserver_text() -> Seq<char> {
    "no nameserver found in /etc/resolv.conf"@
}

/// The first nameserver that a resolver configuration's text names; a
/// network error when there is none.
pub fn nameserver_in(contents: &str) -> (r: Result<String, DnsError>)
    ensures
        match r {
            Ok(a) => first_nameserver(split_lines(contents@)) == Some(a@),
            Err(e) => first_nameserver(split_lines(contents@)) is None && (e matches DnsError::Network(m) && m@ == no_nameserver_text()),
        },
{
    let lines = lines_of(contents);
    let ghost ls = strings_view(lines@);
    let key = vec!['n', 'a', 'm', 'e', 's', 'e', 'r', 'v', 'e', 'r'];
    proof {
        reveal_strlit("nameserver");
        assert(key@ =~= "nameserver"@);
    }
    let mut i: usize = 0;
    assert(ls.skip(0) =~= ls);
    while i < lines.len()
        invariant
            ls == strings_view(lines@),
            ls == split_lines(contents@),
            key@ == "nameserver"@,
            i <= lines@.len(),
            first_nameserver(ls) == first_nameserver(ls.skip(i as int)),
        decreases lines@.len() - i,
    {
        let cs = chars_of(lines[i].as_str());
        let t = trim_chars(&cs);
        let ghost rest = ls.skip(i as int);
        assert(rest[0] == lines@[i as int]@);
        assert(rest.drop_first() =~= ls.skip(i + 1));
        if starts_with_chars(&t, &key) {
            let line = string_of(&t);
            let words = split_tokens(line.as_str());
            if words.len() >= 2 {
                assert(strings_view(words@)[1] == words@[1]@);
                return Ok(words[1].clone());
            }
        }
        i = i + 1;
    }
    assert(ls.skip(i as int).len() == 0);
    let mut m = String::new();
    crate::text::push_str(&mut m, "no nameserver found in /etc/resolv.conf");
    Err(DnsError::Network(m))
}

} // verus!
