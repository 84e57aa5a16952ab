//! Authentication decisions: credential checking and cookie-value parsing.
//!
//! The HTTP plumbing around these (cookie jars, middleware, responses) is
//! unverified and hands in plain values.

use vstd::prelude::*;
use vstd::string::StrSliceExecFns;

use crate::database::{query_user_spec, save_user_spec, Database};
use crate::entity::{LoginInfo, User, UserView};
use crate::errors::ApiError;

verus! {

/// The profile stored for an accepted login, before the store assigns the
/// id and creation time.
pub open spec fn login_profile(username: Seq<char>, now: u32) -> UserView {
    UserView {
        id: 123,
        username: username,
        password: "password"@,
        phone_number: "13800138000"@,
        email: "test@gmail.com"@,
        create_time: now,
    }
}

/// Check the presented credentials; on success store the account and return
/// it as the session's resolved user.
///
/// Only the fixed test credential pair is accepted; anything else is
/// `NotAuthenticated` and leaves the store untouched.
pub fn login<D: Database>(db: &mut D, login_info: &LoginInfo, now: u32) -> (r: Result<
    User,
    ApiError,
>)
    requires
        old(db).inv(),
        old(db).db().next_user_id < u32::MAX,
    ensures
        final(db).inv(),
        r is Err <==> !(login_info.username@ == "test"@ && login_info.password@ == "test"@),
        r is Err ==> r == Err::<User, ApiError>(ApiError::NotAuthenticated) && final(db).db()
            == old(db).db(),
        r is Ok ==> final(db).db() == save_user_spec(
            old(db).db(),
            login_profile(login_info.username@, now),
            now,
        ).0,
        r matches Ok(u) ==> Some(u@) == query_user_spec(
            final(db).db(),
            login_info.username@,
            "password"@,
        ),
{
    let expected = "test".to_owned();
    if !(login_info.username == expected && login_info.password == expected) {
        return Err(ApiError::NotAuthenticated);
    }
    let user = User {
        id: 123,
        username: login_info.username.clone(),
        password: "password".to_owned(),
        phone_number: "13800138000".to_owned(),
        email: "test@gmail.com".to_owned(),
        create_time: now,
    };
    let ghost d0 = db.db();
    match db.save_user(&user, now) {
        Ok(()) => {},
        Err(_) => {
            proof {
                assert(false);
            }
        },
    }
    proof {
        let stored = save_user_spec(d0, user@, now).0.users.last();
        crate::database::lemma_first_match_push(
            d0.users,
            stored,
            login_info.username@,
            "password"@,
        );
        assert(save_user_spec(d0, user@, now).0.users.drop_last() =~= d0.users);
        assert(save_user_spec(d0, user@, now).0.users =~= d0.users.push(stored));
    }
    match db.query_user(login_info.username.as_str(), "password") {
        Some(u) => Ok(u),
        None => {
            proof {
                assert(false);
            }
            Err(ApiError::NotAuthenticated)
        },
    }
}

/// Whether `c` is a decimal digit.
pub open spec fn is_dec_digit(c: char) -> bool {
    '0' as u32 <= c as u32 && c as u32 <= '9' as u32
}

pub open spec fn all_dec_digits(s: Seq<char>) -> bool {
    forall|i: int| 0 <= i < s.len() ==> is_dec_digit(#[trigger] s[i])
}

/// The value of a decimal digit string.
pub open spec fn dec_chars_value(s: Seq<char>) -> nat
    decreases s.len(),
{
    if s.len() == 0 {
        0
    } else {
        dec_chars_value(s.drop_last()) * 10 + ((s.last() as u32 - '0' as u32) as nat)
    }
}

/// What a cookie value parses to: the number it spells in decimal, if it is
/// a nonempty digit string whose value fits.
pub open spec fn parse_u32_spec(s: Seq<char>) -> Option<u32> {
    if s.len() > 0 && all_dec_digits(s) && dec_chars_value(s) <= u32::MAX {
        Some(dec_chars_value(s) as u32)
    } else {
        None
    }
}

/// A longer digit prefix never spells a smaller value.
proof fn lemma_dec_prefix_le(s: Seq<char>, k: int)
    requires
        0 <= k <= s.len(),
    ensures
        dec_chars_value(s.subrange(0, k)) <= dec_chars_value(s),
    decreases s.len() - k,
{
    if k == s.len() {
        assert(s.subrange(0, k) =~= s);
    } else {
        assert(s.subrange(0, k + 1).drop_last() =~= s.subrange(0, k));
        lemma_dec_prefix_le(s, k + 1);
    }
}

/// The user id carried by a session cookie: the value as a decimal number,
/// when it is one and is positive; anything else resolves no user.
pub fn cookie_user_id(value: &str) -> (r: Option<u32>)
    ensures
        r is Some <==> (parse_u32_spec(value@) matches Some(uid) && uid > 0),
        r matches Some(uid) ==> parse_u32_spec(value@) == Some(uid),
{
    let n = value.unicode_len();
    if n == 0 {
        return None;
    }
    let mut acc: u32 = 0;
    let mut i: usize = 0;
    while i < n
        invariant
            0 < n == value@.len(),
            i <= n,
            forall|j: int| 0 <= j < i ==> is_dec_digit(#[trigger] value@[j]),
            acc == dec_chars_value(value@.subrange(0, i as int)),
        decreases n - i,
    {
        let c = value.get_char(i);
        let cu = c as u32;
        if !(48 <= cu && cu <= 57) {
            return None;
        }
        let d = cu - 48;
        proof {
            assert(value@.subrange(0, i + 1 as int).drop_last() =~= value@.subrange(0, i as int));
            assert(value@.subrange(0, i + 1 as int).last() == value@[i as int]);
        }
        acc = match acc.checked_mul(10) {
            Some(x) => match x.checked_add(d) {
                Some(y) => y,
                None => {
                    proof {
                        lemma_overflow_means_none(value@, i as int + 1);
                    }
                    return None;
                },
            },
            None => {
                proof {
                    lemma_overflow_means_none(value@, i as int + 1);
                }
                return None;
            },
        };
        i += 1;
    }
    proof {
        assert(value@.subrange(0, n as int) =~= value@);
    }
    if acc == 0 {
        None
    } else {
        Some(acc)
    }
}

/// A prefix already past `u32::MAX` rules the whole string out.
proof fn lemma_overflow_means_none(s: Seq<char>, k: int)
    requires
        0 <= k <= s.len(),
        dec_chars_value(s.subrange(0, k)) > u32::MAX,
    ensures
        parse_u32_spec(s) is None,
{
    lemma_dec_prefix_le(s, k);
}

} // verus!
