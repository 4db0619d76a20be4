//! The credential pool: rotating tokens, each resting for a cooldown between uses.
use crate::ScriptError;
use std::collections::VecDeque;
use vstd::prelude::*;

verus! {

/// A credential as read from its file.
pub struct RawCookie {
    pub cookie: String,
}

/// A credential with the time it was last given back to the pool.
pub struct Cookie {
    cookie: String,
    last_update: Option<u64>,
}

impl Cookie {
    /// The authentication token.
    pub closed spec fn token(&self) -> Seq<char> {
        self.cookie@
    }

    /// When the credential was last used; `None` when it never was.
    pub closed spec fn last_used(&self) -> Option<u64> {
        self.last_update
    }

    /// The same credential, marked as used at `now`.
    pub closed spec fn used_at(&self, now: u64) -> Cookie {
        Cookie { cookie: self.cookie, last_update: Some(now) }
    }

    /// A credential that has never been used.
    pub fn new(raw_cookie: RawCookie) -> (r: Cookie)
        ensures
            r.token() == raw_cookie.cookie@,
            r.last_used() is None,
    {
        Cookie { cookie: raw_cookie.cookie, last_update: None }
    }

    pub fn cookie(&self) -> (r: &str)
        ensures
            r@ == self.token(),
    {
        self.cookie.as_str()
    }

    pub fn last_update(&self) -> (r: Option<u64>)
        ensures
            r == self.last_used(),
    {
        self.last_update
    }

    /// Records a use at time `now`.
    pub fn update(&mut self, now: u64)
        ensures
            *final(self) == old(self).used_at(now),
            final(self).token() == old(self).token(),
            final(self).last_used() == Some(now),
    {
        self.last_update = Some(now);
    }
}

/// A credential marked as used keeps its token and carries the time of that use.
pub proof fn lemma_used_at(c: Cookie, now: u64)
    ensures
        c.used_at(now).token() == c.token(),
        c.used_at(now).last_used() == Some(now),
{
}

/// The credential may be handed out at `now`: it never was used, or `wait`
/// has passed since its last use.
pub open spec fn ready(c: Cookie, now: u64, wait: u64) -> bool {
    match c.last_used() {
        None => true,
        Some(t) => now as int >= t as int + wait as int,
    }
}

pub open spec fn has_token(s: Seq<Cookie>, tok: Seq<char>) -> bool {
    exists|i: int| 0 <= i < s.len() && #[trigger] s[i].token() == tok
}

/// No two credentials of the pool carry the same token.
pub open spec fn distinct_tokens(s: Seq<Cookie>) -> bool {
    forall|i: int, j: int|
        0 <= i < s.len() && 0 <= j < s.len() && i != j ==> #[trigger] s[i].token() != #[trigger] s[j].token()
}

/// `i` is the first ready credential of `s`.
pub open spec fn is_first_ready(s: Seq<Cookie>, i: int, now: u64, wait: u64) -> bool {
    &&& 0 <= i < s.len()
    &&& ready(s[i], now, wait)
    &&& forall|j: int| 0 <= j < i ==> !ready(#[trigger] s[j], now, wait)
}

/// The pool after acquiring at `now`, with the credential handed out: the first
/// ready one in queue order, taken out of the pool; none when no credential is ready.
pub open spec fn acquire_result(s: Seq<Cookie>, now: u64, wait: u64) -> (Option<Cookie>, Seq<Cookie>) {
    if exists|i: int| is_first_ready(s, i, now, wait) {
        let i = choose|i: int| is_first_ready(s, i, now, wait);
        (Some(s[i]), s.remove(i))
    } else {
        (None, s)
    }
}

/// The pool after `c` is given back at `now`, marked as used then; a token that
/// the pool already holds is not taken twice.
pub open spec fn release_result(s: Seq<Cookie>, c: Cookie, now: u64) -> Seq<Cookie> {
    if has_token(s, c.token()) {
        s
    } else {
        s.push(c.used_at(now))
    }
}

/// The pool with the credential of token `tok` taken out for good.
pub open spec fn remove_result(s: Seq<Cookie>, tok: Seq<char>) -> Seq<Cookie> {
    if has_token(s, tok) {
        s.remove(choose|i: int| 0 <= i < s.len() && s[i].token() == tok)
    } else {
        s
    }
}

/// The first `n` credentials of `s` in order, without those whose token an
/// earlier one already carries.
pub open spec fn dedup_tokens(s: Seq<Cookie>, n: nat) -> Seq<Cookie>
    decreases n,
{
    if n == 0 || n > s.len() {
        Seq::empty()
    } else {
        let d = dedup_tokens(s, (n - 1) as nat);
        if has_token(d, s[n - 1].token()) {
            d
        } else {
            d.push(s[n - 1])
        }
    }
}

/// The credential pool.
pub struct CookieList {
    list: VecDeque<Cookie>,
}

impl View for CookieList {
    type V = Seq<Cookie>;

    closed spec fn view(&self) -> Seq<Cookie> {
        self.list@
    }
}

impl CookieList {
    pub open spec fn wf(&self) -> bool {
        distinct_tokens(self@)
    }

    /// Index of the credential of token `tok` in the pool, if there is one.
    fn find(&self, tok: &String) -> (r: Option<usize>)
        ensures
            match r {
                Some(i) => i < self@.len() && self@[i as int].token() == tok@,
                None => !has_token(self@, tok@),
            },
    {
        let mut i: usize = 0;
        while i < self.list.len()
            invariant
                i <= self@.len(),
                self@ == self.list@,
                forall|j: int| 0 <= j < i ==> #[trigger] self@[j].token() != tok@,
            decreases self@.len() - i,
        {
            if self.list[i].cookie == *tok {
                return Some(i);
            }
            i = i + 1;
        }
        None
    }

    /// A pool of the given credentials in their order; of two with the same
    /// token the first is kept.
    pub fn new(list: VecDeque<Cookie>) -> (r: CookieList)
        ensures
            r.wf(),
            r@ == dedup_tokens(list@, list@.len()),
            forall|i: int| 0 <= i < r@.len() ==> list@.contains(#[trigger] r@[i]),
            forall|i: int| 0 <= i < list@.len() ==> has_token(r@, #[trigger] list@[i].token()),
    {
        let ghost input = list@;
        let mut list = list;
        let mut r = CookieList { list: VecDeque::new() };
        let ghost mut k: int = 0;
        while list.len() > 0
            invariant
                0 <= k <= input.len(),
                list@ == input.subrange(k, input.len() as int),
                r.wf(),
                r@ == dedup_tokens(input, k as nat),
                forall|i: int| 0 <= i < r@.len() ==> input.contains(#[trigger] r@[i]),
                forall|i: int| 0 <= i < k ==> has_token(r@, #[trigger] input[i].token()),
            decreases list@.len(),
        {
            let c = list.pop_front().unwrap();
            proof {
                assert(c == input[k]);
            }
            match r.find(&c.cookie) {
                Some(_) => {},
                None => {
                    let ghost before = r@;
                    r.list.push_back(c);
                    proof {
                        assert(r@ == before.push(c));
                        assert forall|i: int| 0 <= i < k implies has_token(r@, #[trigger] input[i].token()) by {
                            let w = choose|w: int| 0 <= w < before.len() && before[w].token() == input[i].token();
                            assert(r@[w] == before[w]);
                        }
                        assert(r@[before.len() as int] == c);
                    }
                },
            }
            proof {
                k = k + 1;
            }
        }
        r
    }

    /// Hands out the first credential, in queue order, whose cooldown of `wait`
    /// has passed at `now`, and takes it out of the pool until it is given back;
    /// `None` when no credential is ready yet.
    pub fn get_cookie(&mut self, now: u64, wait: u64) -> (r: Option<Cookie>)
        requires
            old(self).wf(),
        ensures
            final(self).wf(),
            (r, final(self)@) == acquire_result(old(self)@, now, wait),
            r matches Some(c) ==> ready(c, now, wait) && !has_token(final(self)@, c.token()),
            r is None ==> forall|i: int| 0 <= i < old(self)@.len() ==> !ready(#[trigger] old(self)@[i], now, wait),
    {
        let mut i: usize = 0;
        while i < self.list.len()
            invariant
                i <= self@.len(),
                self@ == self.list@,
                self@ == old(self)@,
                distinct_tokens(self@),
                forall|j: int| 0 <= j < i ==> !ready(#[trigger] self@[j], now, wait),
            decreases self@.len() - i,
        {
            let ok = match self.list[i].last_update {
                None => true,
                Some(t) => now >= t && now - t >= wait,
            };
            if ok {
                proof {
                    assert(is_first_ready(self@, i as int, now, wait));
                    let k = choose|k: int| is_first_ready(self@, k, now, wait);
                    if k < i {
                        assert(!ready(self@[k], now, wait));
                    }
                    if i < k {
                        assert(!ready(self@[i as int], now, wait));
                    }
                    assert(k == i);
                }
                let c = self.list.remove(i).unwrap();
                proof {
                    lemma_remove_keeps_distinct(old(self)@, i as int);
                }
                return Some(c);
            }
            i = i + 1;
        }
        None
    }

    /// Gives a credential back at `now`; its cooldown starts again.
    pub fn release(&mut self, cookie: Cookie, now: u64)
        requires
            old(self).wf(),
        ensures
            final(self).wf(),
            final(self)@ == release_result(old(self)@, cookie, now),
    {
        match self.find(&cookie.cookie) {
            Some(_) => {},
            None => {
                let mut cookie = cookie;
                cookie.update(now);
                self.list.push_back(cookie);
                proof {
                    let s = final(self)@;
                    assert forall|i: int, j: int|
                        0 <= i < s.len() && 0 <= j < s.len() && i != j implies
                        #[trigger] s[i].token() != #[trigger] s[j].token() by {
                        if i == s.len() - 1 {
                            assert(old(self)@[j] == s[j]);
                        } else if j == s.len() - 1 {
                            assert(old(self)@[i] == s[i]);
                        }
                    }
                }
            },
        }
    }

    /// Takes the credential of token `cookie` out of the pool for good.
    pub fn remove_cookie(&mut self, cookie: &str)
        requires
            old(self).wf(),
        ensures
            final(self).wf(),
            final(self)@ == remove_result(old(self)@, cookie@),
            !has_token(final(self)@, cookie@),
    {
        let tok = cookie.to_owned();
        match self.find(&tok) {
            Some(i) => {
                proof {
                    let k = choose|k: int| 0 <= k < old(self)@.len() && old(self)@[k].token() == cookie@;
                    assert(k == i);
                }
                self.list.remove(i);
                proof {
                    lemma_remove_keeps_distinct(old(self)@, i as int);
                }
            },
            None => {},
        }
    }

    /// Ends a paint attempt made with `cookie` at `now`: a credential that the
    /// service reported as no longer valid is dropped for good, any other goes
    /// back to the pool.
    pub fn settle(&mut self, cookie: Cookie, outcome: &Result<(), ScriptError>, now: u64)
        requires
            old(self).wf(),
        ensures
            final(self).wf(),
            final(self)@ == settle_result(old(self)@, cookie, *outcome, now),
    {
        match outcome {
            Err(ScriptError::CookieOutdated) => {
                self.remove_cookie(cookie.cookie());
            },
            _ => {
                self.release(cookie, now);
            },
        }
    }
}

/// The pool after a paint attempt with `c` ended at `now` with `outcome`.
pub open spec fn settle_result(s: Seq<Cookie>, c: Cookie, outcome: Result<(), ScriptError>, now: u64) -> Seq<Cookie> {
    if outcome == Err::<(), ScriptError>(ScriptError::CookieOutdated) {
        remove_result(s, c.token())
    } else {
        release_result(s, c, now)
    }
}

proof fn lemma_remove_keeps_distinct(s: Seq<Cookie>, i: int)
    requires
        distinct_tokens(s),
        0 <= i < s.len(),
    ensures
        distinct_tokens(s.remove(i)),
        !has_token(s.remove(i), s[i].token()),
{
    let t = s.remove(i);
    assert forall|a: int, b: int| 0 <= a < t.len() && 0 <= b < t.len() && a != b implies
        #[trigger] t[a].token() != #[trigger] t[b].token() by {
        let a2 = if a < i { a } else { a + 1 };
        let b2 = if b < i { b } else { b + 1 };
        assert(t[a] == s[a2]);
        assert(t[b] == s[b2]);
    }
    if has_token(t, s[i].token()) {
        let a = choose|a: int| 0 <= a < t.len() && t[a].token() == s[i].token();
        let a2 = if a < i { a } else { a + 1 };
        assert(t[a] == s[a2]);
    }
}


} // verus!

verus! {

proof fn lemma_acquire_facts(s: Seq<Cookie>, now: u64, wait: u64)
    requires
        distinct_tokens(s),
    ensures
        ({
            let (c, s1) = acquire_result(s, now, wait);
            &&& distinct_tokens(s1)
            &&& c matches Some(c) ==> ready(c, now, wait) && !has_token(s1, c.token())
        }),
{
    if exists|i: int| is_first_ready(s, i, now, wait) {
        let i = choose|i: int| is_first_ready(s, i, now, wait);
        lemma_remove_keeps_distinct(s, i);
    }
}

/// Two acquisitions in a row never hand out the same credential: the second
/// cannot return the first one's credential before it is given back.
pub proof fn lemma_acquire_exclusive(s: Seq<Cookie>, t1: u64, t2: u64, wait: u64)
    requires
        distinct_tokens(s),
    ensures
        ({
            let (c1, s1) = acquire_result(s, t1, wait);
            let (c2, s2) = acquire_result(s1, t2, wait);
            c1 is Some && c2 is Some ==> c1->0.token() != c2->0.token()
        }),
{
    lemma_acquire_facts(s, t1, wait);
    let (c1, s1) = acquire_result(s, t1, wait);
    if exists|i: int| is_first_ready(s1, i, t2, wait) {
        let i = choose|i: int| is_first_ready(s1, i, t2, wait);
        if c1 is Some {
            assert(s1[i].token() != c1->0.token());
        }
    }
}

/// A credential handed out at `t1` and given back at `t_rel >= t1` is not
/// handed out again before `t1 + wait`.
pub proof fn lemma_cooldown_respected(s: Seq<Cookie>, t1: u64, t_rel: u64, t2: u64, wait: u64)
    requires
        distinct_tokens(s),
        t1 <= t_rel,
    ensures
        ({
            let (c1, s1) = acquire_result(s, t1, wait);
            c1 is Some ==> {
                let s2 = release_result(s1, c1->0, t_rel);
                let (c2, s3) = acquire_result(s2, t2, wait);
                c2 is Some && c2->0.token() == c1->0.token() ==> t2 as int >= t1 as int + wait as int
            }
        }),
{
    lemma_acquire_facts(s, t1, wait);
    let (c1, s1) = acquire_result(s, t1, wait);
    if c1 is Some {
        let c = c1->0;
        let s2 = release_result(s1, c, t_rel);
        assert(s2 == s1.push(c.used_at(t_rel)));
        let n = s1.len() as int;
        assert(s2[n] == c.used_at(t_rel));
        if exists|i: int| is_first_ready(s2, i, t2, wait) {
            let i = choose|i: int| is_first_ready(s2, i, t2, wait);
            if s2[i].token() == c.token() && i != n {
                assert(s2[i] == s1[i]);
                assert(has_token(s1, c.token()));
            }
        }
    }
}

} // verus!
