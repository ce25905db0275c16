//! Mount specifications, as found in `/etc/fstab` and on the command line.
use crate::bls::{opt_view, strings_view};
use crate::text::{chars_of, copy_chars};
use vstd::prelude::*;
use vstd::string::*;

verus! {

/// A mount: what, where, which file system, with which options.
#[derive(Debug)]
pub struct MountSpec {
    pub source: String,
    pub target: String,
    pub fstype: String,
    pub options: Option<String>,
}

/// ASCII white space, as `str::split_ascii_whitespace` splits on it.
pub open spec fn is_ascii_ws(c: char) -> bool {
    c == ' ' || c == '\t' || c == '\n' || c == '\u{c}' || c == '\r'
}

/// The pieces of `s` between white space characters, the current one begun at
/// `start` (empty pieces included).
pub open spec fn ws_pieces_from(s: Seq<char>, start: int, i: int) -> Seq<Seq<char>>
    decreases s.len() - i,
{
    if i >= s.len() {
        seq![s.subrange(start, s.len() as int)]
    } else if is_ascii_ws(s[i]) {
        seq![s.subrange(start, i)] + ws_pieces_from(s, i + 1, i + 1)
    } else {
        ws_pieces_from(s, start, i + 1)
    }
}

/// `ps` without its empty pieces.
pub open spec fn nonempty(ps: Seq<Seq<char>>) -> Seq<Seq<char>>
    decreases ps.len(),
{
    if ps.len() == 0 {
        seq![]
    } else if ps.last().len() == 0 {
        nonempty(ps.drop_last())
    } else {
        nonempty(ps.drop_last()).push(ps.last())
    }
}

/// The words of `s`.
pub open spec fn words(s: Seq<char>) -> Seq<Seq<char>> {
    nonempty(ws_pieces_from(s, 0, 0))
}

pub open spec fn auto_word() -> Seq<char> {
    seq!['a', 'u', 't', 'o']
}

/// Why a mount specification was refused.
#[derive(Debug, PartialEq, Eq)]
pub enum MountSpecError {
    /// A source without a target.
    MissingTarget,
}

/// The words of `text`, in order.
fn split_words(text: &str) -> (r: Vec<String>)
    ensures
        strings_view(r@) == words(text@),
{
    let cs = chars_of(text);
    let n = cs.len();
    let mut out: Vec<String> = Vec::new();
    let mut start: usize = 0;
    let mut i: usize = 0;
    let ghost mut done: Seq<Seq<char>> = seq![];
    assert(strings_view(out@) =~= nonempty(done));
    while i < n
        invariant
            n == cs@.len(),
            cs@ == text@,
            start <= i <= n,
            done + ws_pieces_from(cs@, start as int, i as int) == ws_pieces_from(cs@, 0, 0),
            strings_view(out@) == nonempty(done),
        decreases n - i,
    {
        let c = cs[i];
        if c == ' ' || c == '\t' || c == '\n' || c == '\u{c}' || c == '\r' {
            let ghost piece = cs@.subrange(start as int, i as int);
            let ghost before = strings_view(out@);
            if i > start {
                out.push(copy_chars(text, start, i));
                assert(strings_view(out@) =~= before.push(piece));
            }
            proof {
                assert(done + ws_pieces_from(cs@, start as int, i as int) =~= done.push(piece)
                    + ws_pieces_from(cs@, i + 1, i + 1));
                assert(done.push(piece).drop_last() =~= done);
                done = done.push(piece);
            }
            start = i + 1;
        }
        i = i + 1;
    }
    let ghost piece = cs@.subrange(start as int, n as int);
    let ghost before = strings_view(out@);
    if n > start {
        out.push(copy_chars(text, start, n));
        assert(strings_view(out@) =~= before.push(piece));
    }
    proof {
        assert(done + ws_pieces_from(cs@, start as int, n as int) =~= done.push(piece));
        assert(done.push(piece).drop_last() =~= done);
        done = done.push(piece);
    }
    out
}

/// `source@` equals `uuid` ignoring ASCII case.
pub open spec fn is_uuid_word(t: Seq<char>) -> bool {
    t.len() == 4 && (t[0] == 'u' || t[0] == 'U') && (t[1] == 'u' || t[1] == 'U') && (t[2] == 'i'
        || t[2] == 'I') && (t[3] == 'd' || t[3] == 'D')
}

impl MountSpec {
    /// A mount of `src` on `target`, file system detected, default options.
    pub fn new(src: &str, target: &str) -> (r: MountSpec)
        ensures
            r.source@ == src@,
            r.target@ == target@,
            r.fstype@ == auto_word(),
            r.options is None,
    {
        proof {
            reveal_strlit("auto");
        }
        MountSpec {
            source: src.to_owned(),
            target: target.to_owned(),
            fstype: String::from_str("auto"),
            options: None,
        }
    }

    /// A mount of the file system with the given UUID.
    pub fn new_uuid_src(uuid: &str, target: &str) -> (r: MountSpec)
        ensures
            r.source@ == "UUID="@ + uuid@,
            r.target@ == target@,
            r.fstype@ == auto_word(),
            r.options is None,
    {
        let src = String::from_str("UUID=").concat(uuid);
        MountSpec::new(src.as_str(), target)
    }

    /// The UUID when the source is `UUID=<uuid>` (in any case).
    pub fn get_source_uuid(&self) -> (r: Option<String>)
        ensures
            crate::text::index_from(self.source@, '=', 0) >= 0 && is_uuid_word(
                self.source@.take(crate::text::index_from(self.source@, '=', 0)),
            ) ==> (r matches Some(u) && u@ == self.source@.skip(
                crate::text::index_from(self.source@, '=', 0) + 1,
            )),
            !(crate::text::index_from(self.source@, '=', 0) >= 0 && is_uuid_word(
                self.source@.take(crate::text::index_from(self.source@, '=', 0)),
            )) ==> r is None,
    {
        let cs = chars_of(self.source.as_str());
        match crate::text::find_char(&cs, '=') {
            None => None,
            Some(k) => {
                proof {
                    crate::text::lemma_index_from_bounds(cs@, '=', 0);
                }
                let word = k == 4 && (cs[0] == 'u' || cs[0] == 'U') && (cs[1] == 'u' || cs[1] == 'U')
                    && (cs[2] == 'i' || cs[2] == 'I') && (cs[3] == 'd' || cs[3] == 'D');
                if word {
                    let u = copy_chars(self.source.as_str(), k + 1, cs.len());
                    assert(u@ =~= self.source@.skip(k + 1));
                    Some(u)
                } else {
                    None
                }
            },
        }
    }

    /// The `/etc/fstab` line: `source target fstype options 0 0`, options
    /// `defaults` when there are none.
    pub fn to_fstab(&self) -> (r: String)
        ensures
            r@ == self.source@ + " "@ + self.target@ + " "@ + self.fstype@ + " "@ + (match self.options {
                Some(o) => o@,
                None => "defaults"@,
            }) + " 0 0"@,
    {
        let opts = match &self.options {
            Some(o) => o.clone(),
            None => String::from_str("defaults"),
        };
        String::from_str(self.source.as_str()).concat(" ").concat(self.target.as_str()).concat(
            " ",
        ).concat(self.fstype.as_str()).concat(" ").concat(opts.as_str()).concat(" 0 0")
    }

    /// Appends a mount option, comma-separated.
    pub fn push_option(&mut self, opt: &str)
        ensures
            final(self).source == old(self).source,
            final(self).target == old(self).target,
            final(self).fstype == old(self).fstype,
            opt_view(final(self).options) == Some(
                match old(self).options {
                    Some(o) => if o@.len() == 0 {
                        opt@
                    } else {
                        o@ + ","@ + opt@
                    },
                    None => opt@,
                },
            ),
    {
        let mut o = match &self.options {
            Some(o) => o.clone(),
            None => String::new(),
        };
        if !o.as_str().is_empty() {
            o.append(",");
        }
        o.append(opt);
        self.options = Some(o);
    }

    /// Reads `source target [fstype [options]]`. Empty text gives an empty
    /// specification; a source without a target is an error.
    pub fn from_str(s: &str) -> (r: Result<MountSpec, MountSpecError>)
        ensures
            words(s@).len() == 0 ==> (r matches Ok(m) && m.source@.len() == 0 && m.target@.len() == 0
                && m.fstype@ == auto_word() && m.options is None),
            words(s@).len() == 1 ==> r == Err::<MountSpec, MountSpecError>(MountSpecError::MissingTarget),
            words(s@).len() >= 2 ==> (r matches Ok(m) && m.source@ == words(s@)[0] && m.target@ == words(
                s@,
            )[1] && m.fstype@ == (if words(s@).len() >= 3 {
                words(s@)[2]
            } else {
                auto_word()
            }) && opt_view(m.options) == (if words(s@).len() >= 4 {
                Some(words(s@)[3])
            } else {
                None::<Seq<char>>
            })),
    {
        proof {
            reveal_strlit("auto");
            reveal_strlit("");
        }
        let ws = split_words(s);
        assert(strings_view(ws@).len() == ws@.len());
        if ws.len() == 0 {
            return Ok(MountSpec::new("", ""));
        }
        if ws.len() < 2 {
            return Err(MountSpecError::MissingTarget);
        }
        let fstype = if ws.len() >= 3 {
            ws[2].clone()
        } else {
            String::from_str("auto")
        };
        let options = if ws.len() >= 4 {
            Some(ws[3].clone())
        } else {
            None
        };
        assert(strings_view(ws@)[0] == ws@[0]@);
        assert(strings_view(ws@)[1] == ws@[1]@);
        Ok(MountSpec { source: ws[0].clone(), target: ws[1].clone(), fstype, options })
    }
}

} // verus!
