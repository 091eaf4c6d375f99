//! Results that come back from elsewhere: the mailbox that is emptied at the frame boundary, and how
//! the asynchronous runtime is set up.

use crate::runtime::pump::Wakeup;
use std::collections::VecDeque;
use std::sync::Arc;
use vstd::prelude::*;
use vstd::string::StringExecFns;

verus! {

/// How the asynchronous runtime is set up.
#[derive(Debug, PartialEq, Eq)]
pub struct AsyncConfig {
    /// Name of the host thread, and start of the names of the worker threads.
    pub thread_name: String,
    /// Number of worker threads.
    pub worker_threads: usize,
}

impl AsyncConfig {
    pub fn new() -> (config: Self)
        ensures
            config.thread_name@ == "lxlake-async"@,
            config.worker_threads == 2,
    {
        AsyncConfig { thread_name: "lxlake-async".to_owned(), worker_threads: 2 }
    }

    pub fn thread_name(self, name: &str) -> (config: Self)
        ensures
            config.thread_name@ == name@,
            config.worker_threads == self.worker_threads,
    {
        AsyncConfig { thread_name: name.to_owned(), worker_threads: self.worker_threads }
    }

    /// Sets the number of worker threads; there is always at least one.
    pub fn threads(self, workers: usize) -> (config: Self)
        ensures
            config.thread_name == self.thread_name,
            config.worker_threads == at_least_one(workers as int),
    {
        AsyncConfig {
            thread_name: self.thread_name,
            worker_threads: if workers == 0 {
                1
            } else {
                workers
            },
        }
    }

    /// Name of the worker threads.
    pub fn worker_name(&self) -> (name: String)
        ensures
            name@ == self.thread_name@ + "-worker"@,
    {
        let name = self.thread_name.as_str().to_owned();
        name.concat("-worker")
    }
}

impl Default for AsyncConfig {
    fn default() -> (config: Self)
        ensures
            config.thread_name@ == "lxlake-async"@,
            config.worker_threads == 2,
    {
        AsyncConfig::new()
    }
}

/// The number, but at least one.
pub open spec fn at_least_one(n: int) -> int {
    if n < 1 {
        1
    } else {
        n
    }
}

/// What others sent and the main thread has not taken yet, in the order in which it was sent.
///
/// Who shares a mailbox between threads guards it: every method here is one turn of holding it.
#[derive(Debug)]
pub struct Mailbox<T> {
    queue: VecDeque<T>,
}

impl<T> View for Mailbox<T> {
    type V = Seq<T>;

    closed spec fn view(&self) -> Seq<T> {
        self.queue@
    }
}

impl<T> Mailbox<T> {
    pub fn new() -> (mailbox: Self)
        ensures
            mailbox@ == Seq::<T>::empty(),
    {
        Mailbox { queue: VecDeque::new() }
    }

    /// An entrance that wakes the event loop for every item.
    pub fn sender<W: Wakeup>(&self, wakeup: Arc<W>) -> (sender: MailboxSender<W>)
        ensures
            sender.waker() == wakeup,
    {
        MailboxSender { wakeup }
    }

    fn post(&mut self, value: T)
        ensures
            final(self)@ == old(self)@.push(value),
    {
        self.queue.push_back(value);
    }

    /// Takes everything out, in the order in which it was sent.
    pub fn drain(&mut self) -> (items: VecDeque<T>)
        ensures
            items@ == old(self)@,
            final(self)@ == Seq::<T>::empty(),
    {
        let mut items: VecDeque<T> = VecDeque::new();
        std::mem::swap(&mut items, &mut self.queue);
        items
    }

    /// Whether nothing waits.
    pub fn is_empty(&self) -> (empty: bool)
        ensures
            empty == (self@.len() == 0),
    {
        self.queue.len() == 0
    }

    /// How much waits.
    pub fn len(&self) -> (n: usize)
        ensures
            n == self@.len(),
    {
        self.queue.len()
    }
}

impl<T> Default for Mailbox<T> {
    fn default() -> (mailbox: Self)
        ensures
            mailbox@ == Seq::<T>::empty(),
    {
        Mailbox::new()
    }
}

/// An entrance to a mailbox.
pub struct MailboxSender<W> {
    wakeup: Arc<W>,
}

impl<W: Wakeup> MailboxSender<W> {
    /// What is woken for every item.
    pub closed spec fn waker(&self) -> Arc<W> {
        self.wakeup
    }

    /// Sends an item and wakes the event loop, in that order: who is woken finds the item.
    pub fn send<T>(&self, mailbox: &mut Mailbox<T>, value: T)
        ensures
            final(mailbox)@ == old(mailbox)@.push(value),
            call_ensures(W::wake, (&*self.waker(),), ()),
    {
        mailbox.post(value);
        let wake = W::wake;
        wake(&self.wakeup);
    }

    /// A second entrance.
    pub fn another(&self) -> (sender: Self)
        ensures
            sender.waker() == self.waker(),
    {
        MailboxSender { wakeup: crate::shared::share(&self.wakeup) }
    }
}

} // verus!
