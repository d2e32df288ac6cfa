pub mod onedrive;

use vstd::prelude::*;

use crate::config::Account;
use crate::file_list::EqualFileDownloadSource;
use self::onedrive::OnedriveConfig;

verus! {

/// The kinds of storage a file can be downloaded from.
#[derive(Clone, Copy, Debug, PartialEq, Eq, Structural, Hash)]
pub enum FileDownloadProviderName {
    OneDrive,
}

/// A download was asked of a provider that is not set up.
#[derive(Clone, Copy, Debug, PartialEq, Eq, Structural)]
pub enum ProviderError {
    NoSuchProvider,
}

/// The OneDrive credentials among the accounts, in the order given.
pub open spec fn onedrive_configs(accounts: Seq<Account>) -> Seq<OnedriveConfig> {
    accounts.map_values(|a: Account| match a {
        Account::Onedrive(c) => c,
    })
}

/// The providers that are set up, and so can serve downloads.
pub struct DownloadProviderManager {
    providers: Vec<FileDownloadProviderName>,
}

impl DownloadProviderManager {
    /// Whether `name` is set up.
    pub closed spec fn serves(&self, name: FileDownloadProviderName) -> bool {
        self.providers@.contains(name)
    }

    /// The manager for the given accounts, and the OneDrive credentials among
    /// them. OneDrive is set up exactly when at least one OneDrive account is
    /// given; the caller builds its driver from the credentials returned.
    pub fn from_config(config: Vec<Account>) -> (r: (DownloadProviderManager, Vec<OnedriveConfig>))
        ensures
            r.1@ == onedrive_configs(config@),
            r.0.serves(FileDownloadProviderName::OneDrive) <==> r.1@.len() > 0,
    {
        let ghost accounts = config@;
        let mut onedrive: Vec<OnedriveConfig> = Vec::new();
        for account in it: config
            invariant
                it.seq() == accounts,
                onedrive@ == onedrive_configs(accounts.take(it.index() as int)),
        {
            match account {
                Account::Onedrive(c) => {
                    onedrive.push(c);
                },
            }
            assert(onedrive_configs(accounts.take(it.index() + 1)) =~= onedrive_configs(
                accounts.take(it.index() as int),
            ).push(onedrive@.last()));
        }
        assert(accounts.take(accounts.len() as int) =~= accounts);
        let mut providers: Vec<FileDownloadProviderName> = Vec::new();
        if onedrive.len() > 0 {
            providers.push(FileDownloadProviderName::OneDrive);
        }
        let r = DownloadProviderManager { providers };
        assert(r.serves(FileDownloadProviderName::OneDrive) <==> onedrive@.len() > 0) by {
            if onedrive@.len() > 0 {
                assert(r.providers@[0] == FileDownloadProviderName::OneDrive);
            }
        }
        (r, onedrive)
    }

    /// The provider that serves a download source, or the error the source
    /// meets when its provider is not set up.
    pub fn get_download_link(&self, source_record: &EqualFileDownloadSource) -> (r: Result<
        FileDownloadProviderName,
        ProviderError,
    >)
        ensures
            self.serves(source_record.provider) ==> r == Ok::<
                FileDownloadProviderName,
                ProviderError,
            >(source_record.provider),
            !self.serves(source_record.provider) ==> r == Err::<
                FileDownloadProviderName,
                ProviderError,
            >(ProviderError::NoSuchProvider),
    {
        let n = self.providers.len();
        let mut i: usize = 0;
        while i < n
            invariant
                n == self.providers@.len(),
                i <= n,
                forall|j: int| 0 <= j < i ==> self.providers@[j] != source_record.provider,
            decreases n - i,
        {
            if self.providers[i] == source_record.provider {
                return Ok(source_record.provider);
            }
            i = i + 1;
        }
        Err(ProviderError::NoSuchProvider)
    }
}

} // verus!
