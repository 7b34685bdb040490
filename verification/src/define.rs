use vstd::prelude::*;

verus! {

/// Error taxonomy shared by both agents. Every failure of a connection is
/// reported as one of these codes; each code has a fixed numeric value
/// (see `to_u64` / `from_u64`) and a human-readable description.
#[derive(PartialEq, Eq, Structural, Debug, Copy, Clone)]
pub enum ErrCode {
    Success,
    DigestFailure,
    FileErr,
    JsonErr,
    ConfigErr,
    UrlErr,
    SocketErr,
    UnImplementErr,
    KeyFmtErr,
    NetErr,
    LockErr,
    UnDefined,
}

impl ErrCode {
    /// The numeric value of each code on the wire and in logs.
    pub open spec fn to_u64_spec(self) -> u64 {
        match self {
            ErrCode::Success => 0,
            ErrCode::DigestFailure => 1,
            ErrCode::FileErr => 2,
            ErrCode::JsonErr => 3,
            ErrCode::ConfigErr => 4,
            ErrCode::UrlErr => 5,
            ErrCode::SocketErr => 6,
            ErrCode::UnImplementErr => 7,
            ErrCode::KeyFmtErr => 8,
            ErrCode::NetErr => 9,
            ErrCode::LockErr => 10,
            ErrCode::UnDefined => 10000,
        }
    }

    pub open spec fn from_u64_spec(code: u64) -> ErrCode {
        if code == 0 {
            ErrCode::Success
        } else if code == 1 {
            ErrCode::DigestFailure
        } else if code == 2 {
            ErrCode::FileErr
        } else if code == 3 {
            ErrCode::JsonErr
        } else if code == 4 {
            ErrCode::ConfigErr
        } else if code == 5 {
            ErrCode::UrlErr
        } else if code == 6 {
            ErrCode::SocketErr
        } else if code == 7 {
            ErrCode::UnImplementErr
        } else if code == 8 {
            ErrCode::KeyFmtErr
        } else if code == 9 {
            ErrCode::NetErr
        } else if code == 10 {
            ErrCode::LockErr
        } else {
            ErrCode::UnDefined
        }
    }

    pub open spec fn description_spec(self) -> Seq<char> {
        match self {
            ErrCode::Success => "操作成功"@,
            ErrCode::DigestFailure => "加密检验失败"@,
            ErrCode::FileErr => "文件错误"@,
            ErrCode::JsonErr => "json错误"@,
            ErrCode::ConfigErr => "配置错误"@,
            ErrCode::UrlErr => "url错误"@,
            ErrCode::SocketErr => "socket错误"@,
            ErrCode::UnImplementErr => "所用功能未实现"@,
            ErrCode::KeyFmtErr => "键格式错误"@,
            ErrCode::NetErr => "网络错误"@,
            ErrCode::LockErr => "锁错误"@,
            ErrCode::UnDefined => "未知错误"@,
        }
    }

    pub fn description(&self) -> (r: &'static str)
        ensures
            r@ == self.description_spec(),
    {
        match *self {
            ErrCode::Success => "操作成功",
            ErrCode::DigestFailure => "加密检验失败",
            ErrCode::FileErr => "文件错误",
            ErrCode::JsonErr => "json错误",
            ErrCode::ConfigErr => "配置错误",
            ErrCode::UrlErr => "url错误",
            ErrCode::SocketErr => "socket错误",
            ErrCode::UnImplementErr => "所用功能未实现",
            ErrCode::KeyFmtErr => "键格式错误",
            ErrCode::NetErr => "网络错误",
            ErrCode::LockErr => "锁错误",
            ErrCode::UnDefined => "未知错误",
        }
    }

    pub fn from_u64(code: u64) -> (r: ErrCode)
        ensures
            r == Self::from_u64_spec(code),
    {
        match code {
            0 => ErrCode::Success,
            1 => ErrCode::DigestFailure,
            2 => ErrCode::FileErr,
            3 => ErrCode::JsonErr,
            4 => ErrCode::ConfigErr,
            5 => ErrCode::UrlErr,
            6 => ErrCode::SocketErr,
            7 => ErrCode::UnImplementErr,
            8 => ErrCode::KeyFmtErr,
            9 => ErrCode::NetErr,
            10 => ErrCode::LockErr,
            _ => ErrCode::UnDefined,
        }
    }

    pub fn to_u64(&self) -> (r: u64)
        ensures
            r == self.to_u64_spec(),
    {
        match *self {
            ErrCode::Success => 0,
            ErrCode::DigestFailure => 1,
            ErrCode::FileErr => 2,
            ErrCode::JsonErr => 3,
            ErrCode::ConfigErr => 4,
            ErrCode::UrlErr => 5,
            ErrCode::SocketErr => 6,
            ErrCode::UnImplementErr => 7,
            ErrCode::KeyFmtErr => 8,
            ErrCode::NetErr => 9,
            ErrCode::LockErr => 10,
            ErrCode::UnDefined => 10000,
        }
    }
}

/// A round trip through the numeric form recovers the code.
pub proof fn lemma_err_code_u64_round_trip(code: ErrCode)
    ensures
        ErrCode::from_u64_spec(code.to_u64_spec()) == code,
{
}

/// An IPv4 address as four plain octets.
#[derive(Default, Debug, Clone, Copy, PartialEq, Eq, Structural)]
pub struct Ip {
    pub first: u8,
    pub second: u8,
    pub third: u8,
    pub forth: u8,
}

impl Ip {
    pub fn new(fs: u8, s: u8, t: u8, f: u8) -> (r: Self)
        ensures
            r.first == fs,
            r.second == s,
            r.third == t,
            r.forth == f,
    {
        Ip { first: fs, second: s, third: t, forth: f }
    }
}

} // verus!
