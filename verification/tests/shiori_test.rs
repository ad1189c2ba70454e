use futures::executor::ThreadPool;
use futures::task::SpawnExt;
use futures::FutureExt;
use futures::StreamExt;
use shiori3::entry::{
    sent, went_well, RawEntry, DLL_PROCESS_ATTACH, DLL_PROCESS_DETACH, DLL_THREAD_ATTACH,
    DLL_THREAD_DETACH, EVENT_BUFFER,
};
use shiori3::enc::{Encoder, Encoding};
use shiori3::error::{ApiError, MyError, MyResult};
use shiori3::event::{answered, replied, reply_slot, Event, EventReceiver, Reply};
use shiori3::ext_api::{EventResponseExt, LoadExt, RequestExt, UnloadExt};
use shiori3::ext_parse::ShioriRequestExt;
use shiori3::response::{ok, response};

/// Waits on the reply of a call that got its event into the queue.
fn wait<T>(sent: MyResult<Reply<T>>) -> MyResult<T> {
    let mut reply = sent?;
    let outcome = futures::executor::block_on(&mut reply.slot);
    reply.resolve(outcome)
}

/// Runs a consumer that answers every event, and a request by "RES:" and its text.
fn echo_consumer(exec: &ThreadPool, mut events: EventReceiver) {
    exec.spawn(async move {
        loop {
            match events.next().await {
                None => {
                    break;
                }
                Some(Event::Load(args)) => {
                    let (hinst, load_dir, res) = args.value();
                    println!("hinst={}, load_dir={}", hinst, load_dir);
                    res.done(Ok(())).expect("done");
                }
                Some(Event::Unload(args)) => {
                    let res = args.value();
                    res.done(Ok(())).expect("done");
                }
                Some(Event::Request(args)) => {
                    let (req, res) = args.value();
                    let res_text = format!("RES:{}", req);
                    res.done(Ok(res_text)).expect("done");
                }
            }
        }
    })
    .unwrap();
}

#[test]
fn shiori_test1() {
    let exec = ThreadPool::new().unwrap();

    let mut entry = RawEntry::new();
    let mut event_receiver = {
        entry.set_hinst(1234);
        entry.load(Encoding::ANSI.to_string("test".as_bytes())).expect("entry::load").events
    };

    let _ = exec
        .spawn(async move {
            loop {
                match event_receiver.next().await {
                    None => {
                        break;
                    }
                    Some(Event::Load(args)) => {
                        let (hinst, load_dir, res) = args.value();
                        println!("hinst={}, load_dir={}", hinst, load_dir);
                        let _ = res.done(Ok(()));
                    }
                    Some(Event::Unload(args)) => {
                        let res = args.value();
                        res.done(Ok(())).expect("done");
                    }
                    Some(Event::Request(args)) => {
                        let (req, res) = args.value();
                        assert_eq!(req, "REQ1");
                        let res_text = format!("RES:{}", req);
                        res.done(Ok(res_text)).expect("done");
                    }
                }
            }
        })
        .unwrap();

    {
        let res = response(wait(entry.request_impl("REQ1".to_string())));
        assert_eq!(res, "RES:REQ1");
    }
}

#[test]
fn load_hands_over_handle_and_directory() {
    let exec = ThreadPool::new().unwrap();
    let mut entry = RawEntry::new();
    assert!(!entry.loaded());
    assert_eq!(entry.hinst(), 0);
    assert!(entry.dllmain(1234, DLL_PROCESS_ATTACH));
    assert_eq!(entry.hinst(), 1234);

    let instance = entry.load_impl("load/dir".to_string()).unwrap();
    assert!(entry.loaded());
    assert!(instance.replaced.is_none());
    let mut events = instance.events;
    exec.spawn(async move {
        match events.next().await {
            Some(Event::Load(args)) => {
                let (hinst, load_dir, res) = args.value();
                assert_eq!(hinst, 1234);
                assert_eq!(load_dir, "load/dir");
                res.done(Ok(())).unwrap();
            }
            _ => panic!("the first event is the load event"),
        }
    })
    .unwrap();
    assert_eq!(wait(Ok(instance.reply)), Ok(()));
}

#[test]
fn load_decodes_the_directory_and_ends_the_old_instance_first() {
    let exec = ThreadPool::new().unwrap();
    let mut entry = RawEntry::new();
    entry.set_hinst(9);
    assert_eq!(
        entry.load(Encoding::ANSI.to_string(&[0x83, 0x66])).err(),
        Some(MyError::EncodeAnsi)
    );
    assert!(!entry.loaded());

    let first = entry.load(Encoding::ANSI.to_string("ghost/master".as_bytes())).unwrap();
    assert!(first.replaced.is_none());
    let mut events = first.events;
    let (seen_tx, seen_rx) = futures::channel::oneshot::channel::<(usize, String)>();
    exec.spawn(async move {
        match events.next().await {
            Some(Event::Load(args)) => {
                let (hinst, load_dir, res) = args.value();
                res.done(Ok(())).unwrap();
                seen_tx.send((hinst, load_dir)).unwrap();
            }
            _ => panic!("the first event is the load event"),
        }
        while let Some(event) = events.next().await {
            drop(event);
        }
    })
    .unwrap();
    assert_eq!(entry.load_answer(wait(Ok(first.reply))), Ok(()));
    assert!(entry.loaded());
    assert_eq!(futures::executor::block_on(seen_rx).unwrap(), (9, "ghost/master".to_string()));

    assert_eq!(entry.load(Err(MyError::Others)).err(), Some(MyError::Others));
    assert!(!entry.loaded());
}

#[test]
fn refused_load_ends_the_instance() {
    let exec = ThreadPool::new().unwrap();
    let mut entry = RawEntry::new();
    let instance = entry.load_impl("dir".to_string()).unwrap();
    let mut events = instance.events;
    exec.spawn(async move {
        while let Some(event) = events.next().await {
            match event {
                Event::Load(args) => {
                    args.value().2.done(Err(MyError::Load)).unwrap();
                }
                other => drop(other),
            }
        }
    })
    .unwrap();
    assert_eq!(entry.load_answer(wait(Ok(instance.reply))), Err(MyError::Load));
    assert!(!entry.loaded());
    assert_eq!(wait(entry.request_impl("x".to_string())), Err(MyError::Api(ApiError::NotLoaded)));

    let instance = entry.load_impl("dir".to_string()).unwrap();
    drop(instance.events);
    assert_eq!(entry.load_answer(wait(Ok(instance.reply))), Err(MyError::Api(ApiError::Canceled)));
    assert!(!entry.loaded());
}

#[test]
fn answer_to_the_load_event_decides_whether_the_instance_stays() {
    let mut entry = RawEntry::new();
    entry.set_hinst(5);
    let instance = entry.load_impl("dir".to_string()).unwrap();
    assert_eq!(entry.load_answer(Ok(())), Ok(()));
    assert!(entry.loaded());
    assert_eq!(entry.load_answer(Err(MyError::Load)), Err(MyError::Load));
    assert!(!entry.loaded());
    assert_eq!(entry.hinst(), 5);
    let mut events = instance.events;
    let seen = futures::executor::block_on(async move {
        let mut seen = 0;
        while let Some(event) = events.next().await {
            drop(event);
            seen += 1;
        }
        seen
    });
    assert_eq!(seen, 1);

    assert_eq!(
        entry.load_answer(Err(MyError::Api(ApiError::Canceled))),
        Err(MyError::Api(ApiError::Canceled))
    );
    assert!(!entry.loaded());
    assert_eq!(entry.load_answer(Ok(())), Ok(()));
    assert!(!entry.loaded());
}

#[test]
fn ended_queue_is_given_up_behind_the_answer() {
    let mut entry = RawEntry::new();
    let instance = entry.load_impl("dir".to_string()).unwrap();
    let sent = entry.unload_impl();
    assert!(!entry.loaded());
    assert_eq!(wait(entry.request_impl("late".to_string())), Err(MyError::Api(ApiError::NotLoaded)));

    let mut events = instance.events;
    let seen = futures::executor::block_on(async {
        let mut seen = Vec::new();
        match events.next().await {
            Some(Event::Load(args)) => {
                seen.push("load");
                let _ = args.value().2.done(Ok(()));
            }
            _ => panic!("the load event comes first"),
        }
        match events.next().await {
            Some(Event::Unload(args)) => {
                seen.push("unload");
                args.value().done(Ok(())).unwrap();
            }
            _ => panic!("the unload event comes second"),
        }
        seen
    });
    assert_eq!(seen, vec!["load", "unload"]);
    assert!(events.next().now_or_never().is_none());
    assert_eq!(wait(sent), Ok(()));
    assert!(matches!(events.next().now_or_never(), Some(None)));
}

#[test]
fn outcome_of_a_call_for_the_host() {
    assert!(went_well(&Ok::<(), MyError>(())));
    assert!(went_well(&Ok::<String, MyError>("x".to_string())));
    assert!(!went_well(&Err::<(), MyError>(MyError::Api(ApiError::Canceled))));
    let (res, reply) = reply_slot::<u8>();
    drop(res);
    assert_eq!(reply.resolve(Ok(Ok(7))), Ok(7));
    let (_res, reply) = reply_slot::<u8>();
    assert_eq!(reply.resolve(Ok(Err(MyError::Load))), Err(MyError::Load));
    let (_res, reply) = reply_slot::<u8>();
    assert_eq!(
        reply.resolve(Err(futures::channel::oneshot::Canceled)),
        Err(MyError::Api(ApiError::Canceled))
    );
}

#[test]
fn load_outcome_follows_the_queueing_of_the_load_event() {
    let mut entry = RawEntry::new();
    let first = entry.load_impl("one".to_string()).unwrap();
    let (_tx, events) = futures::channel::mpsc::channel::<Event>(1);
    let (_res, reply) = reply_slot::<()>();
    let refused = entry.load_outcome(
        Err(MyError::Api(ApiError::SendFailed)),
        events,
        reply,
        Some(Err(MyError::Api(ApiError::SendFailed))),
    );
    assert_eq!(refused.err(), Some(MyError::Api(ApiError::SendFailed)));
    assert!(!entry.loaded());
    drop(first);

    let _second = entry.load_impl("two".to_string()).unwrap();
    let (_tx, events) = futures::channel::mpsc::channel::<Event>(1);
    let (_res, reply) = reply_slot::<()>();
    let kept = entry.load_outcome(Ok(()), events, reply, Some(Err(MyError::Load)));
    assert!(entry.loaded());
    let instance = kept.unwrap();
    assert_eq!(instance.replaced.map(wait), Some(Err(MyError::Load)));
}

#[test]
fn request_without_instance_is_not_loaded() {
    let mut entry = RawEntry::new();
    assert_eq!(wait(entry.request_impl("REQ".to_string())), Err(MyError::Api(ApiError::NotLoaded)));
    assert_eq!(
        response(wait(entry.request_impl("REQ".to_string()))),
        "SHIORI/3.0 500 Internal Server Error\r\nCharset: UTF-8\r\nX-ERROR-REASON: not loaded\r\n\r\n"
    );
    assert_eq!(wait(entry.unload_impl()), Err(MyError::Api(ApiError::NotLoaded)));
    assert_eq!(wait(entry.unload_send()), Err(MyError::Api(ApiError::NotLoaded)));
    assert!(!went_well(&wait(entry.unload_impl())));
    assert!(!entry.loaded());
}

#[test]
fn request_after_unload_is_not_loaded() {
    let exec = ThreadPool::new().unwrap();
    let mut entry = RawEntry::new();
    let instance = entry.load_impl("dir".to_string()).unwrap();
    echo_consumer(&exec, instance.events);
    assert_eq!(wait(Ok(instance.reply)), Ok(()));
    assert_eq!(wait(entry.request_impl("A".to_string())), Ok("RES:A".to_string()));
    assert!(went_well(&wait(entry.unload_impl())));
    assert!(!entry.loaded());
    assert_eq!(wait(entry.request_impl("B".to_string())), Err(MyError::Api(ApiError::NotLoaded)));

    let instance = entry.load_impl("dir".to_string()).unwrap();
    assert!(instance.replaced.is_none());
    echo_consumer(&exec, instance.events);
    assert_eq!(wait(entry.request_impl("C".to_string())), Ok("RES:C".to_string()));
}

#[test]
fn load_while_loaded_ends_the_old_instance_first() {
    let exec = ThreadPool::new().unwrap();
    let mut entry = RawEntry::new();
    let first = entry.load_impl("one".to_string()).unwrap();
    let (seen_tx, seen_rx) = futures::channel::oneshot::channel::<Vec<String>>();
    let mut events = first.events;
    exec.spawn(async move {
        let mut seen = Vec::new();
        loop {
            match events.next().await {
                None => {
                    seen.push("closed".to_string());
                    break;
                }
                Some(Event::Load(args)) => {
                    let (_, load_dir, res) = args.value();
                    seen.push(format!("load {}", load_dir));
                    let _ = res.done(Ok(()));
                }
                Some(Event::Unload(args)) => {
                    seen.push("unload".to_string());
                    args.value().done(Ok(())).unwrap();
                }
                Some(Event::Request(args)) => {
                    let (req, res) = args.value();
                    seen.push(format!("request {}", req));
                    res.done(Ok(req)).unwrap();
                }
            }
        }
        seen_tx.send(seen).unwrap();
    })
    .unwrap();

    let second = entry.load_impl("two".to_string()).unwrap();
    assert!(entry.loaded());
    assert_eq!(second.replaced.map(wait), Some(Ok(())));
    assert_eq!(
        futures::executor::block_on(seen_rx).unwrap(),
        vec!["load one".to_string(), "unload".to_string(), "closed".to_string()]
    );
    echo_consumer(&exec, second.events);
    assert_eq!(wait(entry.request_impl("X".to_string())), Ok("RES:X".to_string()));
}

#[test]
fn load_while_loaded_succeeds_though_the_old_consumer_is_gone() {
    let mut entry = RawEntry::new();
    let first = entry.load_impl("one".to_string()).unwrap();
    drop(first);
    let second = entry.load_impl("two".to_string()).unwrap();
    assert!(entry.loaded());
    assert_eq!(second.replaced.map(wait), Some(Err(MyError::Api(ApiError::SendFailed))));
}

#[test]
fn requests_are_answered_in_the_order_of_submission() {
    let exec = ThreadPool::new().unwrap();
    let mut entry = RawEntry::new();
    let instance = entry.load_impl("dir".to_string()).unwrap();
    let (seen_tx, seen_rx) = futures::channel::oneshot::channel::<Vec<String>>();
    let mut events = instance.events;
    exec.spawn(async move {
        let mut seen = Vec::new();
        loop {
            match events.next().await {
                None => break,
                Some(Event::Load(args)) => {
                    let _ = args.value().2.done(Ok(()));
                }
                Some(Event::Unload(args)) => {
                    args.value().done(Ok(())).unwrap();
                }
                Some(Event::Request(args)) => {
                    let (req, res) = args.value();
                    seen.push(req.clone());
                    res.done(Ok(format!("{}:{}", seen.len(), req))).unwrap();
                }
            }
        }
        seen_tx.send(seen).unwrap();
    })
    .unwrap();

    let mut answers = Vec::new();
    for i in 0..50 {
        answers.push(wait(entry.request_impl(format!("r{}", i))).unwrap());
    }
    let expected: Vec<String> = (0..50).map(|i| format!("{}:r{}", i + 1, i)).collect();
    assert_eq!(answers, expected);
    assert!(went_well(&wait(entry.unload_impl())));
    let seen = futures::executor::block_on(seen_rx).unwrap();
    assert_eq!(seen, (0..50).map(|i| format!("r{}", i)).collect::<Vec<String>>());
}

#[test]
fn dropped_reply_handle_is_seen_as_canceled() {
    let exec = ThreadPool::new().unwrap();
    let mut entry = RawEntry::new();
    let instance = entry.load_impl("dir".to_string()).unwrap();
    let mut events = instance.events;
    exec.spawn(async move {
        loop {
            match events.next().await {
                None => break,
                Some(event) => drop(event),
            }
        }
    })
    .unwrap();
    assert_eq!(wait(Ok(instance.reply)), Err(MyError::Api(ApiError::Canceled)));
    assert_eq!(wait(entry.request_impl("REQ".to_string())), Err(MyError::Api(ApiError::Canceled)));
    assert_eq!(
        response(wait(entry.request_impl("REQ".to_string()))),
        "SHIORI/3.0 500 Internal Server Error\r\nCharset: UTF-8\r\nX-ERROR-REASON: event canceled\r\n\r\n"
    );
    assert!(entry.loaded());
    assert_eq!(wait(entry.unload_impl()), Err(MyError::Api(ApiError::Canceled)));
    assert!(!entry.loaded());
}

#[test]
fn discarded_consumer_cancels_the_pending_reply() {
    let mut entry = RawEntry::new();
    let instance = entry.load_impl("dir".to_string()).unwrap();
    let reply = instance.reply;
    drop(instance.events);
    assert_eq!(wait(Ok(reply)), Err(MyError::Api(ApiError::Canceled)));
    assert_eq!(wait(entry.request_impl("REQ".to_string())), Err(MyError::Api(ApiError::SendFailed)));
    assert!(entry.loaded());
    assert_eq!(wait(entry.unload_impl()), Err(MyError::Api(ApiError::SendFailed)));
    assert!(!entry.loaded());
}

#[test]
fn full_queue_refuses_the_event() {
    let mut entry = RawEntry::new();
    let _instance = entry.load_impl("dir".to_string()).unwrap();
    let mut queued = 1;
    let mut replies = Vec::new();
    loop {
        let (res, reply) = reply_slot::<String>();
        let event = Event::Request(shiori3::event::Request { req: "x".to_string(), res });
        match entry.send_event(event) {
            Ok(()) => {
                queued += 1;
                replies.push(reply);
            }
            Err(e) => {
                assert_eq!(e, MyError::Api(ApiError::SendFailed));
                break;
            }
        }
        assert!(queued <= EVENT_BUFFER + 1);
    }
    assert_eq!(queued, EVENT_BUFFER + 1);
    assert!(entry.loaded());
}

#[test]
fn detach_ends_the_instance_without_handshake() {
    let mut entry = RawEntry::new();
    entry.dllmain(77, DLL_PROCESS_ATTACH);
    let instance = entry.load_impl("dir".to_string()).unwrap();
    assert!(entry.dllmain(1, DLL_THREAD_ATTACH));
    assert!(entry.dllmain(2, DLL_THREAD_DETACH));
    assert!(entry.loaded());
    assert_eq!(entry.hinst(), 77);
    assert!(entry.dllmain(456, DLL_PROCESS_DETACH));
    assert!(!entry.loaded());
    assert_eq!(entry.hinst(), 77);

    let mut events = instance.events;
    let seen = futures::executor::block_on(async move {
        let mut seen = Vec::new();
        while let Some(event) = events.next().await {
            seen.push(match event {
                Event::Load(_) => "load",
                Event::Unload(_) => "unload",
                Event::Request(_) => "request",
            });
        }
        seen
    });
    assert_eq!(seen, vec!["load"]);

    let mut entry = RawEntry::new();
    let _instance = entry.load_impl("dir".to_string()).unwrap();
    assert!(entry.unload_sync());
    assert!(!entry.loaded());
    entry.unload_drop();
    assert!(!entry.loaded());
}

#[test]
fn answer_to_a_caller_that_is_gone() {
    let (res, reply) = reply_slot::<String>();
    drop(reply);
    assert_eq!(res.done(Ok("late".to_string())), Err(MyError::Api(ApiError::Canceled)));
    let (res, reply) = reply_slot::<String>();
    assert_eq!(res.send(Err(MyError::NoContent)), Ok(()));
    assert_eq!(wait(Ok(reply)), Err(MyError::NoContent));
}

#[test]
fn outcomes_of_the_channel() {
    assert_eq!(sent(Ok(())), Ok(()));
    let (mut tx, rx) = futures::channel::mpsc::channel::<Event>(0);
    drop(rx);
    let (res, _reply) = reply_slot::<()>();
    let refused = tx.try_send(Event::Unload(shiori3::event::Unload { res }));
    assert!(refused.is_err());
    assert_eq!(sent(refused), Err(MyError::Api(ApiError::SendFailed)));

    assert_eq!(replied(Ok(Ok(5))), Ok(5));
    assert_eq!(replied::<i32>(Ok(Err(MyError::Load))), Err(MyError::Load));
    assert_eq!(replied::<i32>(Err(futures::channel::oneshot::Canceled)), Err(MyError::Api(ApiError::Canceled)));
    assert_eq!(answered::<i32>(Ok(())), Ok(()));
    assert_eq!(answered(Err(Ok(1))), Err(MyError::Api(ApiError::Canceled)));
}

#[test]
fn consumer_decodes_the_request_and_answers_in_wire_form() {
    let exec = ThreadPool::new().unwrap();
    let mut entry = RawEntry::new();
    let instance = entry.load_impl("dir".to_string()).unwrap();
    let mut events = instance.events;
    exec.spawn(async move {
        loop {
            match events.next().await {
                None => break,
                Some(Event::Load(args)) => {
                    let _ = args.value().2.done(Ok(()));
                }
                Some(Event::Unload(args)) => {
                    args.value().done(Ok(())).unwrap();
                }
                Some(Event::Request(args)) => {
                    let (req, res) = args.value();
                    let answer = match req.parse_request() {
                        Err(e) => Err(e),
                        Ok(parsed) => match parsed.id.as_deref() {
                            Some("version") => Ok(ok("1.0")),
                            _ => Err(MyError::NoContent),
                        },
                    };
                    res.done(answer).unwrap();
                }
            }
        }
    })
    .unwrap();

    assert_eq!(
        response(wait(entry.request_impl("GET SHIORI/3.0\r\nID: version\r\n\r\n".to_string()))),
        "SHIORI/3.0 200 OK\r\nCharset: UTF-8\r\nValue: 1.0\r\n\r\n"
    );
    assert_eq!(
        response(wait(entry.request_impl("GET SHIORI/3.0\r\nID: OnBoot\r\n\r\n".to_string()))),
        "SHIORI/3.0 204 No Content\r\nCharset: UTF-8\r\n\r\n"
    );
    assert_eq!(
        response(wait(entry.request_impl("HELLO".to_string()))),
        "SHIORI/3.0 500 Internal Server Error\r\nCharset: UTF-8\r\nX-ERROR-REASON: Shiori request parse error for 'malformed header'\r\n\r\n"
    );
}
