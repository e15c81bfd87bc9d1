use vstd::prelude::*;
use vstd::string::*;
use crate::text::{
    chars_of, find_char, lemma_ascii_utf8_len, lemma_utf8_len_concat, rfind_char, substring, utf8_len,
};

pub mod cat_file;
pub mod commit_object;

verus! {

broadcast use vstd::seq_lib::group_seq_properties;

/// A person as a commit records them: `name <email_user@email_domain> time`.
#[derive(Clone)]
pub struct Gitter {
    pub name: String,
    pub email_user: String,
    pub email_domain: String,
    pub time: String,
}

/// What a `Gitter` holds, as character sequences.
#[verifier::ext_equal]
pub struct GitterView {
    pub name: Seq<char>,
    pub email_user: Seq<char>,
    pub email_domain: Seq<char>,
    pub time: Seq<char>,
}

impl View for Gitter {
    type V = GitterView;

    open spec fn view(&self) -> GitterView {
        GitterView {
            name: self.name@,
            email_user: self.email_user@,
            email_domain: self.email_domain@,
            time: self.time@,
        }
    }
}

impl GitterView {
    /// The line text of a person: `name <user@domain> time`.
    pub open spec fn text(self) -> Seq<char> {
        self.name + seq![' ', '<'] + self.email_user + seq!['@'] + self.email_domain + seq!['>', ' ']
            + self.time
    }

    /// The e-mail address: `user@domain`.
    pub open spec fn email(self) -> Seq<char> {
        self.email_user + seq!['@'] + self.email_domain
    }

    /// The parts can be told apart again in `text`: no part is empty, the name
    /// holds no `<`, the address holds no `>`, and the domain holds no `@`.
    pub open spec fn wf(self) -> bool {
        &&& self.name.len() > 0
        &&& !self.name.contains('<')
        &&& self.email_user.len() > 0
        &&& !self.email_user.contains('>')
        &&& self.email_domain.len() > 0
        &&& !self.email_domain.contains('>')
        &&& !self.email_domain.contains('@')
        &&& self.time.len() > 0
    }
}

/// Where the separators of a well-formed person's text stand.
proof fn lemma_gitter_layout(g: GitterView)
    requires
        g.wf(),
    ensures
        ({
            let t = g.text();
            let a = g.name.len() as int;
            let at = a + 2 + g.email_user.len();
            let gt = at + 1 + g.email_domain.len();
            &&& t.len() == gt + 2 + g.time.len()
            &&& t[a] == ' ' && t[a + 1] == '<'
            &&& forall|j: int| 0 <= j < a + 1 ==> t[j] != '<'
            &&& t[at] == '@' && t[gt] == '>' && t[gt + 1] == ' '
            &&& forall|j: int| a + 2 <= j < gt ==> t[j] != '>'
            &&& forall|j: int| at < j < gt ==> t[j] != '@'
            &&& t.subrange(0, a) == g.name
            &&& t.subrange(a + 2, at) == g.email_user
            &&& t.subrange(at + 1, gt) == g.email_domain
            &&& t.subrange(gt + 2, t.len() as int) == g.time
        }),
{
    let t = g.text();
    let a = g.name.len() as int;
    let at = a + 2 + g.email_user.len();
    let gt = at + 1 + g.email_domain.len();
    assert forall|j: int| 0 <= j < a + 1 implies t[j] != '<' by {
        if j < a {
            assert(t[j] == g.name[j]);
        }
    }
    assert forall|j: int| a + 2 <= j < gt implies t[j] != '>' by {
        if j < at {
            assert(t[j] == g.email_user[j - a - 2]);
        } else if j > at {
            assert(t[j] == g.email_domain[j - at - 1]);
        }
    }
    assert forall|j: int| at < j < gt implies t[j] != '@' by {
        assert(t[j] == g.email_domain[j - at - 1]);
    }
    assert(t.subrange(0, a) =~= g.name);
    assert(t.subrange(a + 2, at) =~= g.email_user);
    assert(t.subrange(at + 1, gt) =~= g.email_domain);
    assert(t.subrange(gt + 2, t.len() as int) =~= g.time);
}

/// The UTF-8 length of a person's text is the sum of its parts and five separator bytes.
pub proof fn lemma_gitter_utf8_len(g: GitterView)
    ensures
        utf8_len(g.text()) == utf8_len(g.name) + utf8_len(g.email_user) + utf8_len(g.email_domain)
            + utf8_len(g.time) + 5,
{
    let sp = seq![' ', '<'];
    let at = seq!['@'];
    let gt = seq!['>', ' '];
    lemma_ascii_utf8_len(sp);
    lemma_ascii_utf8_len(at);
    lemma_ascii_utf8_len(gt);
    lemma_utf8_len_concat(g.name, sp);
    lemma_utf8_len_concat(g.name + sp, g.email_user);
    lemma_utf8_len_concat(g.name + sp + g.email_user, at);
    lemma_utf8_len_concat(g.name + sp + g.email_user + at, g.email_domain);
    lemma_utf8_len_concat(g.name + sp + g.email_user + at + g.email_domain, gt);
    lemma_utf8_len_concat(g.name + sp + g.email_user + at + g.email_domain + gt, g.time);
}

impl Gitter {
    /// The number of bytes of the person's text in UTF-8.
    pub fn bytes(&self) -> (r: usize)
        requires
            utf8_len(self@.text()) <= usize::MAX,
        ensures
            r == utf8_len(self@.text()),
    {
        proof {
            lemma_gitter_utf8_len(self@);
        }
        self.name.as_str().len() + 2 + self.email_user.as_str().len() + 1
            + self.email_domain.as_str().len() + 2 + self.time.as_str().len()
    }

    /// Reads a person from the text `name <user@domain> time`: the name ends
    /// before the first ` <`, the address at the first `>` after it, and the
    /// user part at the last `@` of the address. `None` when `s` has no such form.
    pub fn parse(s: &str) -> (r: Option<Gitter>)
        ensures
            match r {
                Some(g) => g@.wf() && g@.text() == s@,
                None => forall|g: GitterView| g.wf() ==> g.text() != s@,
            },
            forall|g: GitterView| g.wf() && g.text() == s@ ==> (r matches Some(x) && x@ == g),
    {
        let v = chars_of(s);
        let n = v.len();
        let lt = match find_char(&v, '<', 0, n) {
            Some(i) => i,
            None => {
                proof {
                    assert forall|g: GitterView| g.wf() implies g.text() != s@ by {
                        if g.text() == s@ {
                            lemma_gitter_layout(g);
                            assert(v@[g.name.len() as int + 1] == '<');
                        }
                    }
                }
                return None;
            },
        };
        if lt < 2 || v[lt - 1] != ' ' {
            proof {
                assert forall|g: GitterView| g.wf() implies g.text() != s@ by {
                    if g.text() == s@ {
                        lemma_gitter_layout(g);
                        let a = g.name.len() as int;
                        assert(v@[a + 1] == '<');
                        assert(lt == a + 1);
                    }
                }
            }
            return None;
        }
        let gt = match find_char(&v, '>', lt + 1, n) {
            Some(i) => i,
            None => {
                proof {
                    assert forall|g: GitterView| g.wf() implies g.text() != s@ by {
                        if g.text() == s@ {
                            lemma_gitter_layout(g);
                            let a = g.name.len() as int;
                            assert(v@[a + 1] == '<');
                            assert(lt == a + 1);
                            let gtp = a + 3 + g.email_user.len() + g.email_domain.len();
                            assert(v@[gtp] == '>');
                        }
                    }
                }
                return None;
            },
        };
        let at = match rfind_char(&v, '@', lt + 1, gt) {
            Some(i) => i,
            None => {
                proof {
                    assert forall|g: GitterView| g.wf() implies g.text() != s@ by {
                        if g.text() == s@ {
                            lemma_gitter_layout(g);
                            let a = g.name.len() as int;
                            assert(v@[a + 1] == '<');
                            assert(lt == a + 1);
                            let atp = a + 2 + g.email_user.len();
                            let gtp = atp + 1 + g.email_domain.len();
                            assert(v@[gtp] == '>');
                            assert(gt == gtp);
                            assert(v@[atp] == '@');
                        }
                    }
                }
                return None;
            },
        };
        if at == lt + 1 || at + 1 == gt || n - gt <= 2 || v[gt + 1] != ' ' {
            proof {
                assert forall|g: GitterView| g.wf() implies g.text() != s@ by {
                    if g.text() == s@ {
                        lemma_gitter_layout(g);
                        let a = g.name.len() as int;
                        assert(v@[a + 1] == '<');
                        assert(lt == a + 1);
                        let atp = a + 2 + g.email_user.len();
                        let gtp = atp + 1 + g.email_domain.len();
                        assert(v@[gtp] == '>');
                        assert(gt == gtp);
                        assert(v@[atp] == '@');
                        assert(at == atp);
                    }
                }
            }
            return None;
        }
        let g = Gitter {
            name: substring(s, 0, lt - 1),
            email_user: substring(s, lt + 1, at),
            email_domain: substring(s, at + 1, gt),
            time: substring(s, gt + 2, n),
        };
        proof {
            assert(!g@.name.contains('<')) by {
                if g@.name.contains('<') {
                    let j = choose|j: int| 0 <= j < g@.name.len() && g@.name[j] == '<';
                    assert(v@[j] == '<');
                }
            }
            assert(!g@.email_user.contains('>')) by {
                if g@.email_user.contains('>') {
                    let j = choose|j: int| 0 <= j < g@.email_user.len() && g@.email_user[j] == '>';
                    assert(v@[lt + 1 + j] == '>');
                }
            }
            assert(!g@.email_domain.contains('>')) by {
                if g@.email_domain.contains('>') {
                    let j = choose|j: int| 0 <= j < g@.email_domain.len() && g@.email_domain[j] == '>';
                    assert(v@[at + 1 + j] == '>');
                }
            }
            assert(!g@.email_domain.contains('@')) by {
                if g@.email_domain.contains('@') {
                    let j = choose|j: int| 0 <= j < g@.email_domain.len() && g@.email_domain[j] == '@';
                    assert(v@[at + 1 + j] == '@');
                }
            }
            assert(g@.text() =~= s@);
            assert forall|h: GitterView| h.wf() && h.text() == s@ implies h == g@ by {
                lemma_gitter_layout(h);
                let a = h.name.len() as int;
                assert(v@[a + 1] == '<');
                assert(lt == a + 1);
                let atp = a + 2 + h.email_user.len();
                let gtp = atp + 1 + h.email_domain.len();
                assert(v@[gtp] == '>');
                assert(gt == gtp);
                assert(v@[atp] == '@');
                assert(at == atp);
                assert(h =~= g@);
            }
        }
        Some(g)
    }

    /// The person's line text: `name <user@domain> time`.
    pub fn serialize(&self) -> (r: String)
        ensures
            r@ == self@.text(),
    {
        let mut s = String::new();
        s.append(self.name.as_str());
        s.append(" <");
        s.append(self.email_user.as_str());
        s.append("@");
        s.append(self.email_domain.as_str());
        s.append("> ");
        s.append(self.time.as_str());
        proof {
            reveal_strlit(" <");
            reveal_strlit("@");
            reveal_strlit("> ");
        }
        assert(s@ =~= self@.text());
        s
    }

    /// The e-mail address `user@domain`.
    pub fn email(&self) -> (r: String)
        ensures
            r@ == self@.email(),
    {
        let mut s = String::new();
        s.append(self.email_user.as_str());
        s.append("@");
        s.append(self.email_domain.as_str());
        proof {
            reveal_strlit("@");
        }
        assert(s@ =~= self@.email());
        s
    }
}

} // verus!
