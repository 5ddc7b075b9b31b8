use vstd::prelude::*;
use vstd::string::*;
use crate::auth::{bcrypt_accepts, contains_username, jwt_claims, jwt_token, max_user_id,
    user_index, AuthResponse, AuthService, LoginRequest, RegisterRequest};
use crate::catalog::Catalog;
use crate::error::FsError;
use crate::perm;
use crate::serverfs::{delete_post, list_post, mkdir_post, read_post, write_post, FileInfo};
use crate::text;
use crate::tree::FileSystem;

verus! {

/// Whether a request is rejected before its token is even inspected: no
/// Authorization header, or one not of the `Bearer <token>` shape.
pub open spec fn header_rejected(header: Option<Seq<char>>) -> bool {
    match header {
        None => true,
        Some(h) => !text::has_prefix_spec(h, "Bearer "@),
    }
}

/// The token carried by a well-shaped Authorization header.
pub open spec fn bearer_token(h: Seq<char>) -> Seq<char> {
    h.skip(7)
}

/// Whether a bearer token is refused at `now`: it decodes to no claim
/// set under this secret (forged, tampered, or signed elsewhere), or its
/// expiry has passed.
pub open spec fn token_rejected(token: Seq<char>, secret: Seq<char>, now: u64) -> bool {
    match jwt_claims(token, secret) {
        Some(c) => now >= c.3,
        None => true,
    }
}

/// The tree `f` with its current node moved to the root, as every
/// request handler arranges before resolving paths.
pub open spec fn at_root(f: FileSystem) -> FileSystem {
    FileSystem {
        current: 0,
        nodes: f.nodes,
        real_path: f.real_path,
        side_effects: f.side_effects,
        catalog: f.catalog,
    }
}

/// The request router: the credential and token service, and the
/// process-wide namespace slot, installed at the first login and shared
/// by authenticated users under the catalog's permission gate.
pub struct Server {
    pub auth: AuthService,
    pub fs: Option<FileSystem>,
}

impl Server {
    /// A well-formed credential store and, when installed, a well-formed
    /// tree.
    pub open spec fn wf(self) -> bool {
        &&& self.auth.wf()
        &&& match self.fs {
            Some(f) => f.wf(),
            None => true,
        }
    }

    /// A fresh server: no users, no namespace installed yet.
    pub fn new() -> (r: Self)
        ensures
            r.wf(),
            r.fs is None,
            r.auth.users@.len() == 0,
    {
        Server { auth: AuthService::new(), fs: None }
    }

    /// Install (or replace) the namespace slot.
    pub fn set_fs(&mut self, fs: FileSystem)
        requires
            old(self).wf(),
            fs.wf(),
        ensures
            final(self).wf(),
            final(self).auth == old(self).auth,
            final(self).fs == Some(fs),
    {
        self.fs = Some(fs);
    }

    /// POST /auth/register: delegate to the credential store; the caller
    /// maps `Ok` to 201 and any refusal to its status.
    pub fn register(&mut self, req: RegisterRequest) -> (r: Result<String, FsError>)
        requires
            old(self).wf(),
        ensures
            final(self).wf(),
            final(self).fs == old(self).fs,
            final(self).auth.secret == old(self).auth.secret,
            contains_username(old(self).auth.users@, req.username@) ==> r == Err::<String, FsError>(
                FsError::Duplicate,
            ) && final(self).auth.users@ == old(self).auth.users@,
            !contains_username(old(self).auth.users@, req.username@) && req.password@.len() < 6
                ==> r == Err::<String, FsError>(FsError::Invalid) && final(self).auth.users@
                == old(self).auth.users@,
            !contains_username(old(self).auth.users@, req.username@) && req.password@.len() >= 6
                ==> {
                &&& (r is Err ==> r == Err::<String, FsError>(FsError::Internal)
                    && final(self).auth.users@ == old(self).auth.users@)
                &&& (r is Ok ==> {
                    &&& final(self).auth.users@.len() == old(self).auth.users@.len() + 1
                    &&& final(self).auth.users@.drop_last() == old(self).auth.users@
                    &&& final(self).auth.users@.last().username@ == req.username@
                    &&& final(self).auth.users@.last().user_id == Some(
                        (max_user_id(old(self).auth.users@) + 1) as i32,
                    )
                    &&& bcrypt_accepts(
                        req.password@,
                        final(self).auth.users@.last().password_hash@,
                    ) == Some(true)
                })
            },
    {
        self.auth.register(req)
    }

    /// POST /auth/login: delegate to the token service; the first
    /// successful login installs a fresh namespace slot with an empty
    /// catalog, and later logins keep the cached one.
    pub fn login(&mut self, req: LoginRequest, now: u64) -> (r: Result<AuthResponse, FsError>)
        requires
            old(self).wf(),
        ensures
            final(self).wf(),
            final(self).auth == old(self).auth,
            !contains_username(old(self).auth.users@, req.username@) ==> r == Err::<
                AuthResponse,
                FsError,
            >(FsError::Unauthenticated),
            contains_username(old(self).auth.users@, req.username@) ==> {
                let u = old(self).auth.users@[user_index(old(self).auth.users@, req.username@)];
                if bcrypt_accepts(req.password@, u.password_hash@) == Some(true) {
                    &&& (now + 3600 <= u64::MAX ==> (r matches Ok(a) && {
                        &&& a.username@ == req.username@
                        &&& Some(a.user_id) == u.user_id
                        &&& a.expires_in == 3600
                        &&& a.token@ == jwt_token(
                            req.username@,
                            a.user_id as int,
                            now as int,
                            now as int + 3600,
                            old(self).auth.secret@,
                        )
                    }))
                    &&& (now + 3600 > u64::MAX ==> r == Err::<AuthResponse, FsError>(
                        FsError::Internal,
                    ))
                } else {
                    r == Err::<AuthResponse, FsError>(FsError::Unauthenticated)
                }
            },
            r is Err ==> final(self).fs == old(self).fs,
            old(self).fs is Some ==> final(self).fs == old(self).fs,
            r is Ok && old(self).fs is None ==> (final(self).fs matches Some(f) && f.nodes@.len()
                == 1 && f.current == 0 && (f.catalog matches Some(c) && c.rows@.len() == 0)),
    {
        let res = self.auth.login(req, now);
        match res {
            Ok(a) => {
                if self.fs.is_none() {
                    let mut fs = FileSystem::new();
                    fs.set_database(Catalog::new());
                    self.fs = Some(fs);
                }
                Ok(a)
            },
            Err(e) => Err(e),
        }
    }

    /// Pull the identity out of an Authorization header: the header must
    /// be present and of the `Bearer <token>` shape, and the token must
    /// verify against the service secret and `now`.
    pub fn extract_user_from_headers(&self, header: Option<&str>, now: u64) -> (r: Result<
        (String, i32),
        FsError,
    >)
        ensures
            r is Err ==> r == Err::<(String, i32), FsError>(FsError::Unauthenticated),
            header_rejected(
                match header {
                    Some(h) => Some(h@),
                    None => None,
                },
            ) ==> r is Err,
            header matches Some(h) ==> text::has_prefix_spec(h@, "Bearer "@) ==> (match jwt_claims(
                bearer_token(h@),
                self.auth.secret@,
            ) {
                Some(c) => if now < c.3 {
                    r matches Ok(p) && p.0@ == c.0 && p.1 == c.1
                } else {
                    r is Err
                },
                None => r is Err,
            }),
            header matches Some(h) ==> text::has_prefix_spec(h@, "Bearer "@) ==> (forall|
                sub: Seq<char>,
                uid: i32,
                iat: u64,
                exp: u64,
            |
                bearer_token(h@) == jwt_token(
                    sub,
                    uid as int,
                    iat as int,
                    exp as int,
                    self.auth.secret@,
                ) ==> if now < exp {
                    r matches Ok(p) && p.0@ == sub && p.1 == uid
                } else {
                    r is Err
                }),
    {
        let h = match header {
            Some(h) => h,
            None => {
                return Err(FsError::Unauthenticated);
            },
        };
        if !text::has_prefix(h, "Bearer ") {
            return Err(FsError::Unauthenticated);
        }
        let n: usize = h.unicode_len();
        proof {
            reveal_strlit("Bearer ");
        }
        let token = h.substring_char(7, n);
        proof {
            assert(token@ =~= bearer_token(h@));
        }
        self.auth.validate_token(token, now)
    }
}

impl Server {
    /// GET /list/<path>: the catalog rows that are immediate children of
    /// the directory, filtered by the read gate, for the authenticated
    /// requester.
    pub fn list_dir(&mut self, header: Option<&str>, path: &str, now: u64) -> (r: Result<
        Vec<FileInfo>,
        FsError,
    >)
        requires
            old(self).wf(),
        ensures
            final(self).wf(),
            final(self).auth == old(self).auth,
            header_rejected(
                match header {
                    Some(h) => Some(h@),
                    None => None,
                },
            ) ==> r == Err::<Vec<FileInfo>, FsError>(FsError::Unauthenticated),
            header matches Some(h) ==> text::has_prefix_spec(h@, "Bearer "@) ==> (
            token_rejected(bearer_token(h@), old(self).auth.secret@, now) ==> r == Err::<
                Vec<FileInfo>,
                FsError,
            >(FsError::Unauthenticated) && final(self).fs == old(self).fs),
            header matches Some(h) ==> text::has_prefix_spec(h@, "Bearer "@) ==> (forall|
                sub: Seq<char>,
                uid: i32,
                iat: u64,
                exp: u64,
            |
                bearer_token(h@) == jwt_token(
                    sub,
                    uid as int,
                    iat as int,
                    exp as int,
                    old(self).auth.secret@,
                ) ==> if now < exp {
                    match old(self).fs {
                        None => r == Err::<Vec<FileInfo>, FsError>(FsError::Internal),
                        Some(f) => final(self).fs matches Some(f2) && f2 == at_root(f)
                            && crate::serverfs::list_post(
                            f2,
                            r,
                            path@,
                            uid as i64,
                            old(self).auth.users@,
                        ),
                    }
                } else {
                    r == Err::<Vec<FileInfo>, FsError>(FsError::Unauthenticated)
                }),
    {
        let who = match self.extract_user_from_headers(header, now) {
            Ok(p) => p,
            Err(e) => {
                return Err(e);
            },
        };
        let mut f = match self.fs.take() {
            Some(f) => f,
            None => {
                return Err(FsError::Internal);
            },
        };
        let ghost f0 = f;
        let _cd = f.change_dir("/");
        proof {
            lemma_find_root(f0);
            assert(f == at_root(f0));
        }
        let r = f.list_contents_with_metadata(path, who.1 as i64, &self.auth.users);
        self.fs = Some(f);
        r
    }

    /// GET /list and /list/: the listing of the namespace root.
    pub fn list_dir_with_empty_path(&mut self, header: Option<&str>, now: u64) -> (r: Result<
        Vec<FileInfo>,
        FsError,
    >)
        requires
            old(self).wf(),
        ensures
            final(self).wf(),
            final(self).auth == old(self).auth,
            header_rejected(
                match header {
                    Some(h) => Some(h@),
                    None => None,
                },
            ) ==> r == Err::<Vec<FileInfo>, FsError>(FsError::Unauthenticated),
            header matches Some(h) ==> text::has_prefix_spec(h@, "Bearer "@) ==> (
            token_rejected(bearer_token(h@), old(self).auth.secret@, now) ==> r == Err::<
                Vec<FileInfo>,
                FsError,
            >(FsError::Unauthenticated) && final(self).fs == old(self).fs),
            header matches Some(h) ==> text::has_prefix_spec(h@, "Bearer "@) ==> (forall|
                sub: Seq<char>,
                uid: i32,
                iat: u64,
                exp: u64,
            |
                bearer_token(h@) == jwt_token(
                    sub,
                    uid as int,
                    iat as int,
                    exp as int,
                    old(self).auth.secret@,
                ) ==> if now < exp {
                    match old(self).fs {
                        None => r == Err::<Vec<FileInfo>, FsError>(FsError::Internal),
                        Some(f) => final(self).fs matches Some(f2) && f2 == at_root(f)
                            && crate::serverfs::list_post(
                            f2,
                            r,
                            ""@,
                            uid as i64,
                            old(self).auth.users@,
                        ),
                    }
                } else {
                    r == Err::<Vec<FileInfo>, FsError>(FsError::Unauthenticated)
                }),
    {
        self.list_dir(header, "", now)
    }

    /// GET /files/<path>: the content of a regular file, under the read
    /// gate of its catalog row.
    pub fn read_file(&mut self, header: Option<&str>, path: &str, now: u64) -> (r: Result<
        String,
        FsError,
    >)
        requires
            old(self).wf(),
        ensures
            final(self).wf(),
            final(self).auth == old(self).auth,
            header_rejected(
                match header {
                    Some(h) => Some(h@),
                    None => None,
                },
            ) ==> r == Err::<String, FsError>(FsError::Unauthenticated),
            header matches Some(h) ==> text::has_prefix_spec(h@, "Bearer "@) ==> (
            token_rejected(bearer_token(h@), old(self).auth.secret@, now) ==> r == Err::<
                String,
                FsError,
            >(FsError::Unauthenticated) && final(self).fs == old(self).fs),
            header matches Some(h) ==> text::has_prefix_spec(h@, "Bearer "@) ==> (forall|
                sub: Seq<char>,
                uid: i32,
                iat: u64,
                exp: u64,
            |
                bearer_token(h@) == jwt_token(
                    sub,
                    uid as int,
                    iat as int,
                    exp as int,
                    old(self).auth.secret@,
                ) ==> if now < exp {
                    match old(self).fs {
                        None => r == Err::<String, FsError>(FsError::Internal),
                        Some(f) => final(self).fs matches Some(f2) && f2 == at_root(f)
                            && crate::serverfs::read_post(f2, r, path@, uid as i64),
                    }
                } else {
                    r == Err::<String, FsError>(FsError::Unauthenticated)
                }),
    {
        let who = match self.extract_user_from_headers(header, now) {
            Ok(p) => p,
            Err(e) => {
                return Err(e);
            },
        };
        let mut f = match self.fs.take() {
            Some(f) => f,
            None => {
                return Err(FsError::Internal);
            },
        };
        let ghost f0 = f;
        let _cd = f.change_dir("/");
        proof {
            lemma_find_root(f0);
            assert(f == at_root(f0));
        }
        let r = f.read_file(path, who.1 as i64);
        self.fs = Some(f);
        r
    }

    /// PUT /files/<path>: write the body to the file, with an optional
    /// three-octal-digit permissions query shaping a newly created row
    /// (default 644).
    pub fn write_file(
        &mut self,
        header: Option<&str>,
        path: &str,
        body: &str,
        permissions: Option<&str>,
        now: u64,
        now_rfc: &str,
    ) -> (r: Result<String, FsError>)
        requires
            old(self).wf(),
        ensures
            final(self).wf(),
            final(self).auth == old(self).auth,
            header_rejected(
                match header {
                    Some(h) => Some(h@),
                    None => None,
                },
            ) ==> r == Err::<String, FsError>(FsError::Unauthenticated),
            header matches Some(h) ==> text::has_prefix_spec(h@, "Bearer "@) ==> (
            token_rejected(bearer_token(h@), old(self).auth.secret@, now) ==> r == Err::<
                String,
                FsError,
            >(FsError::Unauthenticated) && final(self).fs == old(self).fs),
            header matches Some(h) ==> text::has_prefix_spec(h@, "Bearer "@) ==> (forall|
                sub: Seq<char>,
                uid: i32,
                iat: u64,
                exp: u64,
            |
                bearer_token(h@) == jwt_token(
                    sub,
                    uid as int,
                    iat as int,
                    exp as int,
                    old(self).auth.secret@,
                ) ==> if now < exp {
                    match old(self).fs {
                        None => r == Err::<String, FsError>(FsError::Internal),
                        Some(f) => {
                            let perms = match permissions {
                                Some(p) => p@,
                                None => "644"@,
                            };
                            &&& (final(self).fs matches Some(f2) && crate::serverfs::write_post(
                                at_root(f),
                                f2,
                                (match r {
                                    Ok(_) => Ok::<(), FsError>(()),
                                    Err(e) => Err::<(), FsError>(e),
                                }),
                                path@,
                                body@,
                                uid as i64,
                                perms,
                                now_rfc@,
                            ))
                            &&& (r matches Ok(msg) ==> msg@ == "File written successfully"@)
                        },
                    }
                } else {
                    r == Err::<String, FsError>(FsError::Unauthenticated)
                }),
    {
        let who = match self.extract_user_from_headers(header, now) {
            Ok(p) => p,
            Err(e) => {
                return Err(e);
            },
        };
        let perms = match permissions {
            Some(p) => p,
            None => "644",
        };
        let mut f = match self.fs.take() {
            Some(f) => f,
            None => {
                return Err(FsError::Internal);
            },
        };
        let ghost f0 = f;
        let _cd = f.change_dir("/");
        proof {
            lemma_find_root(f0);
            assert(f == at_root(f0));
        }
        let r = f.write_file(path, body, who.1 as i64, perms, now_rfc);
        self.fs = Some(f);
        match r {
            Ok(()) => Ok("File written successfully".to_owned()),
            Err(e) => Err(e),
        }
    }

    /// DELETE /files/<path>: delete the file or directory, gated by write
    /// permission on its parent.
    pub fn delete_file(&mut self, header: Option<&str>, path: &str, now: u64) -> (r: Result<
        String,
        FsError,
    >)
        requires
            old(self).wf(),
        ensures
            final(self).wf(),
            final(self).auth == old(self).auth,
            header_rejected(
                match header {
                    Some(h) => Some(h@),
                    None => None,
                },
            ) ==> r == Err::<String, FsError>(FsError::Unauthenticated),
            header matches Some(h) ==> text::has_prefix_spec(h@, "Bearer "@) ==> (
            token_rejected(bearer_token(h@), old(self).auth.secret@, now) ==> r == Err::<
                String,
                FsError,
            >(FsError::Unauthenticated) && final(self).fs == old(self).fs),
            header matches Some(h) ==> text::has_prefix_spec(h@, "Bearer "@) ==> (forall|
                sub: Seq<char>,
                uid: i32,
                iat: u64,
                exp: u64,
            |
                bearer_token(h@) == jwt_token(
                    sub,
                    uid as int,
                    iat as int,
                    exp as int,
                    old(self).auth.secret@,
                ) ==> if now < exp {
                    match old(self).fs {
                        None => r == Err::<String, FsError>(FsError::Internal),
                        Some(f) => final(self).fs matches Some(f2) && crate::serverfs::delete_post(
                            at_root(f),
                            f2,
                            (match r {
                                Ok(_) => Ok::<(), FsError>(()),
                                Err(e) => Err::<(), FsError>(e),
                            }),
                            path@,
                            uid as i64,
                        ),
                    }
                } else {
                    r == Err::<String, FsError>(FsError::Unauthenticated)
                }),
    {
        let who = match self.extract_user_from_headers(header, now) {
            Ok(p) => p,
            Err(e) => {
                return Err(e);
            },
        };
        let mut f = match self.fs.take() {
            Some(f) => f,
            None => {
                return Err(FsError::Internal);
            },
        };
        let ghost f0 = f;
        let _cd = f.change_dir("/");
        proof {
            lemma_find_root(f0);
            assert(f == at_root(f0));
        }
        let r = f.delete(path, who.1 as i64);
        self.fs = Some(f);
        match r {
            Ok(()) => Ok("Directory/File deleted successfully".to_owned()),
            Err(e) => Err(e),
        }
    }

    /// POST /mkdir/<path>: create the directory named by the path's last
    /// segment under its textual parent, with an optional permissions
    /// query shaping the catalog row (default 755).
    pub fn mkdir(
        &mut self,
        header: Option<&str>,
        path: &str,
        permissions: Option<&str>,
        now: u64,
        now_rfc: &str,
    ) -> (r: Result<String, FsError>)
        requires
            old(self).wf(),
        ensures
            final(self).wf(),
            final(self).auth == old(self).auth,
            header_rejected(
                match header {
                    Some(h) => Some(h@),
                    None => None,
                },
            ) ==> r == Err::<String, FsError>(FsError::Unauthenticated),
            header matches Some(h) ==> text::has_prefix_spec(h@, "Bearer "@) ==> (
            token_rejected(bearer_token(h@), old(self).auth.secret@, now) ==> r == Err::<
                String,
                FsError,
            >(FsError::Unauthenticated) && final(self).fs == old(self).fs),
            header matches Some(h) ==> text::has_prefix_spec(h@, "Bearer "@) ==> (forall|
                sub: Seq<char>,
                uid: i32,
                iat: u64,
                exp: u64,
            |
                bearer_token(h@) == jwt_token(
                    sub,
                    uid as int,
                    iat as int,
                    exp as int,
                    old(self).auth.secret@,
                ) ==> if now < exp {
                    let perms = match permissions {
                        Some(p) => p@,
                        None => "755"@,
                    };
                    if !perm::valid_permissions(perms) {
                        r == Err::<String, FsError>(FsError::Invalid) && final(self).fs == old(
                            self,
                        ).fs
                    } else {
                        match old(self).fs {
                            None => r == Err::<String, FsError>(FsError::Internal),
                            Some(f) => final(self).fs matches Some(f2)
                                && crate::serverfs::mkdir_post(
                                at_root(f),
                                f2,
                                (match r {
                                    Ok(_) => Ok::<(), FsError>(()),
                                    Err(e) => Err::<(), FsError>(e),
                                }),
                                seq!['/'] + text::parent_part(path@),
                                text::base_part(path@),
                                uid as i64,
                                perms,
                                now_rfc@,
                            ),
                        }
                    }
                } else {
                    r == Err::<String, FsError>(FsError::Unauthenticated)
                }),
    {
        let who = match self.extract_user_from_headers(header, now) {
            Ok(p) => p,
            Err(e) => {
                return Err(e);
            },
        };
        let perms = match permissions {
            Some(p) => p,
            None => "755",
        };
        if !perm::is_valid_permissions(perms) {
            return Err(FsError::Invalid);
        }
        let parts = text::split_at_last_slash(path);
        let parent_arg = text::concat_str("/", parts.0.as_str());
        proof {
            reveal_strlit("/");
            assert(parent_arg@ =~= seq!['/'] + text::parent_part(path@));
        }
        let mut f = match self.fs.take() {
            Some(f) => f,
            None => {
                return Err(FsError::Internal);
            },
        };
        let ghost f0 = f;
        let _cd = f.change_dir("/");
        proof {
            lemma_find_root(f0);
            assert(f == at_root(f0));
        }
        let r = f.make_dir_metadata(
            parent_arg.as_str(),
            parts.1.as_str(),
            who.1 as i64,
            perms,
            now_rfc,
        );
        self.fs = Some(f);
        match r {
            Ok(()) => Ok("Directory created successfully".to_owned()),
            Err(e) => Err(e),
        }
    }

    /// GET /lookup/<path>: the raw-mode record for one node, for the
    /// mount client's attribute replies.
    pub fn lookup(&mut self, header: Option<&str>, path: &str, now: u64) -> (r: Result<
        crate::client::FileInfo,
        FsError,
    >)
        requires
            old(self).wf(),
        ensures
            final(self).wf(),
            final(self).auth == old(self).auth,
            header_rejected(
                match header {
                    Some(h) => Some(h@),
                    None => None,
                },
            ) ==> r == Err::<crate::client::FileInfo, FsError>(FsError::Unauthenticated),
            header matches Some(h) ==> text::has_prefix_spec(h@, "Bearer "@) ==> (
            token_rejected(bearer_token(h@), old(self).auth.secret@, now) ==> r == Err::<
                crate::client::FileInfo,
                FsError,
            >(FsError::Unauthenticated) && final(self).fs == old(self).fs),
            header matches Some(h) ==> text::has_prefix_spec(h@, "Bearer "@) ==> (forall|
                sub: Seq<char>,
                uid: i32,
                iat: u64,
                exp: u64,
            |
                bearer_token(h@) == jwt_token(
                    sub,
                    uid as int,
                    iat as int,
                    exp as int,
                    old(self).auth.secret@,
                ) ==> if now < exp {
                    match old(self).fs {
                        None => r == Err::<crate::client::FileInfo, FsError>(FsError::Internal),
                        Some(f) => final(self).fs matches Some(f2) && f2 == at_root(f)
                            && crate::serverfs::lookup_post(
                            f2,
                            r,
                            path@,
                            sub,
                            old(self).auth.users@,
                        ),
                    }
                } else {
                    r == Err::<crate::client::FileInfo, FsError>(FsError::Unauthenticated)
                }),
    {
        let who = match self.extract_user_from_headers(header, now) {
            Ok(p) => p,
            Err(e) => {
                return Err(e);
            },
        };
        let mut f = match self.fs.take() {
            Some(f) => f,
            None => {
                return Err(FsError::Internal);
            },
        };
        let ghost f0 = f;
        let _cd = f.change_dir("/");
        proof {
            lemma_find_root(f0);
            assert(f == at_root(f0));
        }
        let r = f.lookup_info(path, who.0.as_str(), &self.auth.users);
        self.fs = Some(f);
        r
    }
}

/// The root path "/" resolves to the root directory on any well-formed
/// tree.
pub proof fn lemma_find_root(f: FileSystem)
    requires
        f.wf(),
    ensures
        f.spec_find("/"@) == Some(0usize),
{
    reveal_strlit("/");
    assert("/"@.len() == 1 && "/"@[0] == '/');
    assert(text::split_acc("/"@, 1, Seq::<char>::empty()) == Seq::<Seq<char>>::empty());
    assert(text::split_slash("/"@) == Seq::<Seq<char>>::empty());
    assert(f.resolve_from(text::split_slash("/"@), 0, 0, FileSystem::link_fuel()) == Some(0usize));
}

} // verus!
