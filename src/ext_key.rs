//! The extension key that groups files: what follows the first `.` of a
//! file name.

use vstd::prelude::*;

verus! {

/// The key of a file name: split on `.`, drop the first segment and join the
/// rest with `.`. That is everything after the first `.`, or nothing where the
/// name holds no `.`.
pub open spec fn ext_key_of(name: Seq<char>) -> Seq<char>
    decreases name.len(),
{
    if name.len() == 0 {
        Seq::empty()
    } else if name[0] == '.' {
        name.drop_first()
    } else {
        ext_key_of(name.drop_first())
    }
}

/// The extension key of a file name (`archive.tar.gz` gives `tar.gz`,
/// `.bashrc` gives `bashrc`, `README` gives the empty key).
pub fn extension_key(name: &str) -> (r: String)
    ensures
        r@ == ext_key_of(name@),
{
    let n = name.unicode_len();
    let mut i: usize = 0;
    assert(name@.subrange(0, n as int) =~= name@);
    while i < n
        invariant
            n == name@.len(),
            i <= n,
            ext_key_of(name@) == ext_key_of(name@.subrange(i as int, n as int)),
        decreases n - i,
    {
        let c = name.get_char(i);
        assert(name@.subrange(i as int, n as int).drop_first() =~= name@.subrange(
            i + 1,
            n as int,
        ));
        if c == '.' {
            return String::from_str(name.substring_char(i + 1, n));
        }
        i += 1;
    }
    String::new()
}

/// A name made of a base without `.`, a `.`, and a rest has the rest as its
/// key, whatever dots the rest holds.
pub proof fn lemma_key_after_first_dot(base: Seq<char>, rest: Seq<char>)
    requires
        !base.contains('.'),
    ensures
        ext_key_of(base + seq!['.'] + rest) == rest,
    decreases base.len(),
{
    if base.len() == 0 {
        assert((base + seq!['.'] + rest).drop_first() =~= rest);
    } else {
        assert((base + seq!['.'] + rest).drop_first() =~= base.drop_first() + seq!['.'] + rest);
        assert(base[0] != '.') by {
            if base[0] == '.' {
                assert(base.contains('.'));
            }
        }
        assert(!base.drop_first().contains('.')) by {
            if base.drop_first().contains('.') {
                let j = choose|j: int| 0 <= j < base.drop_first().len() && base.drop_first()[j] == '.';
                assert(base[j + 1] == '.');
            }
        }
        lemma_key_after_first_dot(base.drop_first(), rest);
    }
}

/// A name without `.` has the empty key.
pub proof fn lemma_key_without_dot(name: Seq<char>)
    requires
        !name.contains('.'),
    ensures
        ext_key_of(name) == Seq::<char>::empty(),
    decreases name.len(),
{
    if name.len() > 0 {
        assert(name[0] != '.') by {
            if name[0] == '.' {
                assert(name.contains('.'));
            }
        }
        assert(!name.drop_first().contains('.')) by {
            if name.drop_first().contains('.') {
                let j = choose|j: int| 0 <= j < name.drop_first().len() && name.drop_first()[j] == '.';
                assert(name[j + 1] == '.');
            }
        }
        lemma_key_without_dot(name.drop_first());
    }
}

} // verus!
