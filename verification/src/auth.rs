use vstd::prelude::*;
use vstd::string::*;
use crate::error::FsError;

verus! {

/// The claim set carried by a bearer token: the username, the stable user
/// id, and the expiry and issue instants as POSIX seconds.
#[derive(Debug)]
pub struct Claims {
    pub sub: String,
    pub user_id: i32,
    pub exp: u64,
    pub iat: u64,
}

/// One stored user: the unique username, the password hash, and the
/// assigned stable id.
#[derive(Clone, Debug)]
pub struct User {
    pub username: String,
    pub password_hash: String,
    pub user_id: Option<i32>,
}

/// A login request body.
#[derive(Debug)]
pub struct LoginRequest {
    pub username: String,
    pub password: String,
}

/// A registration request body.
#[derive(Debug)]
pub struct RegisterRequest {
    pub username: String,
    pub password: String,
}

/// A successful login answer: the signed token, the identity it carries,
/// and its validity window in seconds.
#[derive(Debug)]
pub struct AuthResponse {
    pub token: String,
    pub username: String,
    pub user_id: i32,
    pub expires_in: usize,
}

/// What bcrypt's `verify` yields for a password and a stored hash: `None`
/// when the hash cannot be parsed, otherwise whether the password matches.
/// The result is a deterministic recomputation from the salt inside the
/// hash, so it depends on the two strings alone.
pub uninterp spec fn bcrypt_accepts(password: Seq<char>, hash: Seq<char>) -> Option<bool>;

/// Relies on bcrypt::hash (with its default cost): the produced hash is in
/// the format bcrypt::verify parses, and verifying the same password
/// against it recomputes the same digest, so it is accepted.
#[verifier::external_body]
fn bcrypt_hash(password: &str) -> (r: Option<String>)
    ensures
        r matches Some(h) ==> bcrypt_accepts(password@, h@) == Some(true),
{
    bcrypt::hash(password, bcrypt::DEFAULT_COST).ok()
}

/// Relies on bcrypt::verify, whose result this crate names
/// `bcrypt_accepts`.
#[verifier::external_body]
fn bcrypt_verify(password: &str, hash: &str) -> (r: Option<bool>)
    ensures
        r == bcrypt_accepts(password@, hash@),
{
    bcrypt::verify(password, hash).ok()
}

/// What jsonwebtoken's `encode` yields for a claim set signed with HS256
/// under a secret: a deterministic function of the claims and the secret.
pub uninterp spec fn jwt_token(
    sub: Seq<char>,
    user_id: int,
    iat: int,
    exp: int,
    secret: Seq<char>,
) -> Seq<char>;

/// Relies on jsonwebtoken::encode with the default HS256 header: the token
/// is a deterministic signing of the claim set, named `jwt_token`.  For
/// HS256 with a secret key the call cannot fail: the key family matches
/// the header, serializing the claim map cannot error, and HMAC signing
/// is infallible.
#[verifier::external_body]
fn encode_token(claims: &Claims, secret: &str) -> (r: String)
    ensures
        r@ == jwt_token(
            claims.sub@,
            claims.user_id as int,
            claims.iat as int,
            claims.exp as int,
            secret@,
        ),
{
    let mut m = serde_json::Map::new();
    m.insert("sub".to_string(), serde_json::Value::from(claims.sub.clone()));
    m.insert("user_id".to_string(), serde_json::Value::from(claims.user_id));
    m.insert("exp".to_string(), serde_json::Value::from(claims.exp));
    m.insert("iat".to_string(), serde_json::Value::from(claims.iat));
    let key = jsonwebtoken::EncodingKey::from_secret(secret.as_bytes());
    jsonwebtoken::encode(&jsonwebtoken::Header::default(), &serde_json::Value::Object(m), &key)
        .expect("HS256 signing with a secret key does not fail")
}

/// What signature-checking decoding yields for a token under a secret:
/// the carried (sub, user_id, iat, exp), or `None` when the token is not
/// an HS256-signed claim set under this secret with those four fields.
/// Under the fixed validation configuration (expiry unchecked, no
/// required claims, no audience or issuer) the result reads no clock and
/// depends on the token and secret alone.
pub uninterp spec fn jwt_claims(token: Seq<char>, secret: Seq<char>) -> Option<
    (Seq<char>, i32, u64, u64),
>;

/// Whether `r` is what signature-checking decoding must yield for `token`
/// under `secret`: any claim set whose signing under `secret` is `token`
/// is recovered exactly.
pub open spec fn decoded_claims_of(token: Seq<char>, secret: Seq<char>, r: Option<Claims>) -> bool {
    forall|sub: Seq<char>, uid: i32, iat: u64, exp: u64|
        token == jwt_token(sub, uid as int, iat as int, exp as int, secret) ==> (r matches Some(c)
            && c.sub@ == sub && c.user_id == uid && c.iat == iat && c.exp == exp)
}

/// Relies on jsonwebtoken::decode with HS256 and signature checking only
/// (the expiry comparison is done by verified code): a token that is the
/// signing of a claim set under this secret decodes back to that claim
/// set.
#[verifier::external_body]
fn decode_token(token: &str, secret: &str) -> (r: Option<Claims>)
    ensures
        decoded_claims_of(token@, secret@, r),
        (match r {
            Some(c) => Some((c.sub@, c.user_id, c.iat, c.exp)),
            None => None,
        }) == jwt_claims(token@, secret@),
{
    let mut validation = jsonwebtoken::Validation::new(jsonwebtoken::Algorithm::HS256);
    validation.validate_exp = false;
    validation.required_spec_claims = std::collections::HashSet::new();
    let key = jsonwebtoken::DecodingKey::from_secret(secret.as_bytes());
    let data = jsonwebtoken::decode::<serde_json::Value>(token, &key, &validation).ok()?;
    let sub = data.claims.get("sub")?.as_str()?.to_string();
    let user_id = i32::try_from(data.claims.get("user_id")?.as_i64()?).ok()?;
    let iat = data.claims.get("iat")?.as_u64()?;
    let exp = data.claims.get("exp")?.as_u64()?;
    Some(Claims { sub, user_id, exp, iat })
}

/// Whether some stored user has this username.
pub open spec fn contains_username(users: Seq<User>, name: Seq<char>) -> bool {
    exists|i: int| 0 <= i < users.len() && (#[trigger] users[i]).username@ == name
}

/// The index of the user with this username (well-defined when usernames
/// are unique and the name is present).
pub open spec fn user_index(users: Seq<User>, name: Seq<char>) -> int {
    choose|i: int| 0 <= i < users.len() && (#[trigger] users[i]).username@ == name
}

/// The id a user carries, or zero when unassigned.
pub open spec fn id_of(u: User) -> int {
    match u.user_id {
        Some(v) => v as int,
        None => 0,
    }
}

/// The largest assigned user id, or zero for an empty store.
pub open spec fn max_user_id(users: Seq<User>) -> int
    decreases users.len(),
{
    if users.len() == 0 {
        0
    } else {
        let m = max_user_id(users.drop_last());
        if id_of(users.last()) > m {
            id_of(users.last())
        } else {
            m
        }
    }
}


/// The user a registration appends is the one a later login finds: a
/// username pushed onto a store that lacked it is present, and the
/// lookup index is the new entry's.
pub proof fn lemma_user_named_push(users: Seq<User>, u: User)
    requires
        !contains_username(users, u.username@),
    ensures
        contains_username(users.push(u), u.username@),
        user_index(users.push(u), u.username@) == users.len(),
{
    assert(users.push(u)[users.len() as int] == u);
    assert(contains_username(users.push(u), u.username@));
    let k = user_index(users.push(u), u.username@);
    if k < users.len() {
        assert(users[k] == users.push(u)[k]);
        assert(contains_username(users, u.username@));
    }
}

/// The credential store and token service: persisted users mirrored in
/// memory, and the process-wide signing secret.
pub struct AuthService {
    pub users: Vec<User>,
    pub secret: String,
}

impl AuthService {
    /// Usernames are unique and every stored user has an assigned id.
    pub open spec fn wf(self) -> bool {
        &&& forall|i: int| 0 <= i < self.users@.len() ==> (#[trigger] self.users@[i]).user_id is Some
        &&& forall|i: int, j: int|
            0 <= i < j < self.users@.len() ==> self.users@[i].username@ != self.users@[j].username@
    }

    /// An empty store with the process-wide signing secret.
    pub fn new() -> (r: Self)
        ensures
            r.wf(),
            r.users@.len() == 0,
    {
        AuthService { users: Vec::new(), secret: "malnati-e-bello".to_owned() }
    }

    /// Mirror one persisted user into memory, refusing duplicates; used at
    /// startup to load the stored table.
    pub fn add_loaded_user(&mut self, username: String, password_hash: String, user_id: i32) -> (r:
        bool)
        requires
            old(self).wf(),
        ensures
            final(self).wf(),
            final(self).secret == old(self).secret,
            r == !contains_username(old(self).users@, username@),
            r ==> final(self).users@ == old(self).users@.push(
                User { username, password_hash, user_id: Some(user_id) },
            ),
            !r ==> final(self).users@ == old(self).users@,
    {
        if self.find_user(username.as_str()).is_some() {
            return false;
        }
        self.users.push(User { username, password_hash, user_id: Some(user_id) });
        true
    }

    /// The index of the stored user with this username, if any.
    pub fn find_user(&self, name: &str) -> (r: Option<usize>)
        ensures
            r matches Some(i) ==> i < self.users@.len() && self.users@[i as int].username@ == name@,
            r is None ==> !contains_username(self.users@, name@),
    {
        let n: usize = self.users.len();
        let mut i: usize = 0;
        while i < n
            invariant
                i <= n,
                n == self.users@.len(),
                forall|j: int| 0 <= j < i ==> (#[trigger] self.users@[j]).username@ != name@,
            decreases n - i,
        {
            if crate::text::str_eq(self.users[i].username.as_str(), name) {
                return Some(i);
            }
            i = i + 1;
        }
        None
    }

    /// The largest assigned user id.
    fn max_id(&self) -> (r: i32)
        requires
            self.wf(),
        ensures
            r as int == max_user_id(self.users@),
            r >= 0,
    {
        let n: usize = self.users.len();
        let mut m: i32 = 0;
        let mut i: usize = 0;
        while i < n
            invariant
                i <= n,
                n == self.users@.len(),
                m >= 0,
                m as int == max_user_id(self.users@.take(i as int)),
                forall|j: int| 0 <= j < n ==> (#[trigger] self.users@[j]).user_id is Some,
            decreases n - i,
        {
            proof {
                assert(self.users@.take(i + 1).drop_last() =~= self.users@.take(i as int));
                assert(self.users@.take(i + 1).last() == self.users@[i as int]);
            }
            match self.users[i].user_id {
                Some(v) => {
                    if v > m {
                        m = v;
                    }
                },
                None => {},
            }
            i = i + 1;
        }
        proof {
            assert(self.users@.take(n as int) =~= self.users@);
        }
        m
    }

    /// Register a new user: refuse a taken username (`Duplicate`) and a
    /// password of fewer than six characters (`Invalid`); otherwise hash
    /// the password with a slow KDF and append the user under the next
    /// free id.
    pub fn register(&mut self, req: RegisterRequest) -> (r: Result<String, FsError>)
        requires
            old(self).wf(),
        ensures
            final(self).wf(),
            final(self).secret == old(self).secret,
            contains_username(old(self).users@, req.username@) ==> r == Err::<String, FsError>(
                FsError::Duplicate,
            ) && final(self).users@ == old(self).users@,
            !contains_username(old(self).users@, req.username@) && req.password@.len() < 6 ==> r
                == Err::<String, FsError>(FsError::Invalid) && final(self).users@
                == old(self).users@,
            !contains_username(old(self).users@, req.username@) && req.password@.len() >= 6 ==> {
                &&& (r is Err ==> r == Err::<String, FsError>(FsError::Internal)
                    && final(self).users@ == old(self).users@)
                &&& (r is Ok ==> {
                    &&& final(self).users@.len() == old(self).users@.len() + 1
                    &&& final(self).users@.drop_last() == old(self).users@
                    &&& final(self).users@.last().username@ == req.username@
                    &&& final(self).users@.last().user_id == Some(
                        (max_user_id(old(self).users@) + 1) as i32,
                    )
                    &&& bcrypt_accepts(req.password@, final(self).users@.last().password_hash@)
                        == Some(true)
                })
            },
    {
        if self.find_user(req.username.as_str()).is_some() {
            return Err(FsError::Duplicate);
        }
        if req.password.as_str().unicode_len() < 6 {
            return Err(FsError::Invalid);
        }
        let hash = match bcrypt_hash(req.password.as_str()) {
            Some(h) => h,
            None => {
                return Err(FsError::Internal);
            },
        };
        let maxid = self.max_id();
        if maxid == i32::MAX {
            return Err(FsError::Internal);
        }
        let user = User {
            username: req.username.clone(),
            password_hash: hash,
            user_id: Some(maxid + 1),
        };
        self.users.push(user);
        proof {
            assert(final(self).users@.drop_last() =~= old(self).users@);
        }
        Ok("User registered successfully".to_owned())
    }

    /// Sign a claim set for this identity: issued at `now`, expiring one
    /// hour later.  Succeeds for every instant whose expiry still fits.
    pub fn generate_token(&self, username: &str, user_id: i32, now: u64) -> (r: Result<
        String,
        FsError,
    >)
        ensures
            now + 3600 <= u64::MAX ==> (r matches Ok(t) && t@ == jwt_token(
                username@,
                user_id as int,
                now as int,
                now as int + 3600,
                self.secret@,
            )),
            now + 3600 > u64::MAX ==> r == Err::<String, FsError>(FsError::Internal),
    {
        if now > u64::MAX - 3600 {
            return Err(FsError::Internal);
        }
        let claims = Claims { sub: username.to_owned(), user_id, exp: now + 3600, iat: now };
        Ok(encode_token(&claims, self.secret.as_str()))
    }

    /// Check a bearer token: the result is a function of the token, this
    /// service's secret and `now` alone — the identity the token carries
    /// when it is a signed claim set under the secret and `now` is before
    /// its expiry, and a refusal for everything else (a forged, tampered
    /// or foreign-secret token decodes to nothing and is refused).
    pub fn validate_token(&self, token: &str, now: u64) -> (r: Result<(String, i32), FsError>)
        ensures
            r is Err ==> r == Err::<(String, i32), FsError>(FsError::Unauthenticated),
            (match jwt_claims(token@, self.secret@) {
                Some(c) => if now < c.3 {
                    r matches Ok(p) && p.0@ == c.0 && p.1 == c.1
                } else {
                    r is Err
                },
                None => r is Err,
            }),
            forall|sub: Seq<char>, uid: i32, iat: u64, exp: u64|
                token@ == jwt_token(sub, uid as int, iat as int, exp as int, self.secret@) ==> if now
                    < exp {
                    r matches Ok(p) && p.0@ == sub && p.1 == uid
                } else {
                    r is Err
                },
    {
        match decode_token(token, self.secret.as_str()) {
            Some(c) => {
                if now < c.exp {
                    Ok((c.sub, c.user_id))
                } else {
                    Err(FsError::Unauthenticated)
                }
            },
            None => Err(FsError::Unauthenticated),
        }
    }

    /// Log a user in: an unknown username or a password the stored hash
    /// refuses is `Unauthenticated`; an accepted password always yields an
    /// answer carrying a token signed for the stored identity, valid from
    /// `now` for one hour (unless that expiry overflows the clock).
    pub fn login(&self, req: LoginRequest, now: u64) -> (r: Result<AuthResponse, FsError>)
        requires
            self.wf(),
        ensures
            !contains_username(self.users@, req.username@) ==> r == Err::<AuthResponse, FsError>(
                FsError::Unauthenticated,
            ),
            contains_username(self.users@, req.username@) ==> {
                let u = self.users@[user_index(self.users@, req.username@)];
                if bcrypt_accepts(req.password@, u.password_hash@) == Some(true) {
                    &&& (now + 3600 <= u64::MAX ==> (r matches Ok(a) && {
                        &&& a.username@ == req.username@
                        &&& Some(a.user_id) == u.user_id
                        &&& a.expires_in == 3600
                        &&& a.token@ == jwt_token(
                            req.username@,
                            a.user_id as int,
                            now as int,
                            now as int + 3600,
                            self.secret@,
                        )
                    }))
                    &&& (now + 3600 > u64::MAX ==> r == Err::<AuthResponse, FsError>(
                        FsError::Internal,
                    ))
                } else {
                    r == Err::<AuthResponse, FsError>(FsError::Unauthenticated)
                }
            },
    {
        let idx = match self.find_user(req.username.as_str()) {
            Some(i) => i,
            None => {
                return Err(FsError::Unauthenticated);
            },
        };
        proof {
            let k = user_index(self.users@, req.username@);
            assert(0 <= k < self.users@.len() && self.users@[k].username@ == req.username@);
            if k != idx {
                assert(self.users@[k].username@ != self.users@[idx as int].username@);
            }
        }
        let ok = match bcrypt_verify(
            req.password.as_str(),
            self.users[idx].password_hash.as_str(),
        ) {
            Some(b) => b,
            None => {
                return Err(FsError::Unauthenticated);
            },
        };
        if !ok {
            return Err(FsError::Unauthenticated);
        }
        let user_id = match self.users[idx].user_id {
            Some(id) => id,
            None => {
                return Err(FsError::Internal);
            },
        };
        let token = match self.generate_token(req.username.as_str(), user_id, now) {
            Ok(t) => t,
            Err(e) => {
                return Err(e);
            },
        };
        Ok(AuthResponse { token, username: req.username, user_id, expires_in: 3600 })
    }
}

} // verus!
