use vstd::prelude::*;

verus! {

/// Reserved marker standing for the empty sequence on a rule's right-hand
/// side. It is never itself a member of a grammar's terminal or non-terminal
/// alphabet, but it is a legal occupant of a rule's words.
pub const EPSILON: char = '\u{03b5}';

/// A single atomic symbol drawn from a finite alphabet.
pub type Letter = char;

/// An ordered, possibly empty sequence of symbols.
pub type Word = Vec<Letter>;

/// An immutable set of symbols supporting membership test and union.
/// Its mathematical value is the set of letters it holds.
#[derive(Debug)]
pub struct Alphabet {
    letters: Vec<Letter>,
}

impl View for Alphabet {
    type V = Set<char>;

    closed spec fn view(&self) -> Set<char> {
        self.letters@.to_set()
    }
}

impl Alphabet {
    /// The empty alphabet.
    pub fn new() -> (a: Alphabet)
        ensures
            a@ == Set::<char>::empty(),
    {
        let a = Alphabet { letters: Vec::new() };
        proof {
            assert(a.letters@.to_set() =~= Set::<char>::empty());
        }
        a
    }

    /// Adds one letter; adding a letter already present changes nothing.
    pub fn add(&mut self, letter: Letter)
        ensures
            final(self)@ == old(self)@.insert(letter),
    {
        if !self.contains(letter) {
            self.letters.push(letter);
            proof {
                assert(self.letters@.to_set() =~= old(self).letters@.to_set().insert(letter))
                by {
                    assert(forall|j: int|
                        0 <= j < old(self).letters@.len() ==> self.letters@[j] == old(
                            self,
                        ).letters@[j]);
                    assert(self.letters@[old(self).letters@.len() as int] == letter);
                }
            }
        } else {
            proof {
                assert(old(self)@.insert(letter) =~= old(self)@);
            }
        }
    }

    /// Builds an alphabet holding exactly the letters of the given collection.
    pub fn from_letters(letters: &Vec<Letter>) -> (a: Alphabet)
        ensures
            a@ == letters@.to_set(),
    {
        let mut a = Alphabet::new();
        let mut i: usize = 0;
        while i < letters.len()
            invariant
                0 <= i <= letters@.len(),
                a@ =~= letters@.take(i as int).to_set(),
            decreases letters@.len() - i,
        {
            a.add(letters[i]);
            proof {
                assert(letters@.take(i + 1) =~= letters@.take(i as int).push(letters@[i as int]));
                assert(letters@.take(i + 1).to_set() =~= letters@.take(i as int).to_set().insert(
                    letters@[i as int],
                )) by {
                    let pre = letters@.take(i as int);
                    let post = letters@.take(i + 1);
                    assert(forall|c: char| pre.contains(c) ==> post.contains(c)) by {
                        assert(forall|j: int| 0 <= j < pre.len() ==> post[j] == pre[j]);
                    }
                    assert(post.contains(letters@[i as int])) by {
                        assert(post[i as int] == letters@[i as int]);
                    }
                    assert(forall|c: char| post.contains(c) ==> pre.push(letters@[i as int]).contains(c));
                    assert(forall|c: char|
                        pre.push(letters@[i as int]).contains(c) ==> (pre.contains(c) || c
                            == letters@[i as int]));
                }
            }
            i += 1;
        }
        proof {
            assert(letters@.take(letters@.len() as int) =~= letters@);
        }
        a
    }

    /// Membership test: does this alphabet hold the given letter?
    pub fn contains(&self, letter: Letter) -> (r: bool)
        ensures
            r == self@.contains(letter),
    {
        let mut i: usize = 0;
        while i < self.letters.len()
            invariant
                0 <= i <= self.letters@.len(),
                forall|j: int| 0 <= j < i ==> self.letters@[j] != letter,
            decreases self.letters@.len() - i,
        {
            if self.letters[i] == letter {
                proof {
                    assert(self.letters@[i as int] == letter);
                }
                return true;
            }
            i += 1;
        }
        proof {
            assert(!self.letters@.contains(letter));
        }
        false
    }

    /// The letters of this alphabet, each exactly once.
    pub fn iter(&self) -> (r: &Vec<Letter>)
        ensures
            r@.to_set() == self@,
    {
        &self.letters
    }

    /// A new alphabet holding every letter of this one or of the other.
    pub fn union(&self, other: &Alphabet) -> (r: Alphabet)
        ensures
            r@ == self@.union(other@),
    {
        let mut r = Alphabet { letters: clone_word(&self.letters) };
        let mut i: usize = 0;
        proof {
            assert(r@ =~= self@.union(other.letters@.take(0).to_set())) by {
                assert(other.letters@.take(0).to_set() =~= Set::<char>::empty());
            }
        }
        while i < other.letters.len()
            invariant
                0 <= i <= other.letters@.len(),
                r@ =~= self@.union(other.letters@.take(i as int).to_set()),
            decreases other.letters@.len() - i,
        {
            r.add(other.letters[i]);
            proof {
                let pre = other.letters@.take(i as int);
                let post = other.letters@.take(i + 1);
                let x = other.letters@[i as int];
                assert(post =~= pre.push(x));
                assert forall|c: char| post.contains(c) implies (pre.contains(c) || c == x) by {
                    let j = choose|j: int| 0 <= j < post.len() && post[j] == c;
                    if j < pre.len() {
                        assert(pre[j] == c);
                    }
                }
                assert forall|c: char| pre.contains(c) || c == x implies post.contains(c) by {
                    if pre.contains(c) {
                        let j = choose|j: int| 0 <= j < pre.len() && pre[j] == c;
                        assert(post[j] == c);
                    } else {
                        assert(post[pre.len() as int] == c);
                    }
                }
                assert(post.to_set() =~= pre.to_set().insert(x));
                assert(r@ =~= self@.union(post.to_set()));
            }
            i += 1;
        }
        proof {
            assert(other.letters@.take(other.letters@.len() as int) =~= other.letters@);
        }
        r
    }
}

/// Copies a word letter by letter; the copy has the same mathematical value.
pub fn clone_word(w: &Word) -> (r: Word)
    ensures
        r@ == w@,
{
    let mut r: Word = Vec::new();
    let mut i: usize = 0;
    while i < w.len()
        invariant
            0 <= i <= w@.len(),
            r@ =~= w@.take(i as int),
        decreases w@.len() - i,
    {
        r.push(w[i]);
        proof {
            assert(r@ =~= w@.take(i + 1));
        }
        i += 1;
    }
    proof {
        assert(w@.take(w@.len() as int) =~= w@);
    }
    r
}

/// Reports whether two words are the same sequence of letters.
pub fn word_eq(a: &Word, b: &Word) -> (r: bool)
    ensures
        r == (a@ == b@),
{
    if a.len() != b.len() {
        return false;
    }
    let mut i: usize = 0;
    while i < a.len()
        invariant
            a@.len() == b@.len(),
            0 <= i <= a@.len(),
            forall|j: int| 0 <= j < i ==> a@[j] == b@[j],
        decreases a@.len() - i,
    {
        if a[i] != b[i] {
            return false;
        }
        i += 1;
    }
    proof {
        assert(a@ =~= b@);
    }
    true
}

/// Reports whether the word holds the given letter anywhere.
pub fn word_contains(w: &Word, c: Letter) -> (r: bool)
    ensures
        r == w@.contains(c),
{
    let mut i: usize = 0;
    while i < w.len()
        invariant
            0 <= i <= w@.len(),
            forall|j: int| 0 <= j < i ==> w@[j] != c,
        decreases w@.len() - i,
    {
        if w[i] == c {
            proof {
                assert(w@[i as int] == c);
            }
            return true;
        }
        i += 1;
    }
    proof {
        assert(!w@.contains(c));
    }
    false
}

} // verus!
