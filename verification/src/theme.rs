//! The shell's voice: for each occasion a few messages, of which one is
//! picked at random.

use crate::config::Config;
use crate::text::same_text;
use rand::seq::SliceRandom;
use vstd::prelude::*;

verus! {

/// The messages of a theme: for each occasion its name and what can be said.
pub struct Theme {
    messages: Vec<(String, Vec<String>)>,
}

/// Whether `pos` is the place of the first entry of `table` for `key`.
pub open spec fn is_entry_for(
    table: Seq<(Seq<char>, Seq<Seq<char>>)>,
    key: Seq<char>,
    pos: int,
) -> bool {
    &&& 0 <= pos < table.len()
    &&& table[pos].0 == key
    &&& forall|k: int| 0 <= k < pos ==> (#[trigger] table[k]).0 != key
}

/// The messages that `table` has for `key`, if it has an entry for it.
pub open spec fn messages_for(table: Seq<(Seq<char>, Seq<Seq<char>>)>, key: Seq<char>) -> Option<
    Seq<Seq<char>>,
> {
    if exists|pos: int| is_entry_for(table, key, pos) {
        Some(table[choose|pos: int| is_entry_for(table, key, pos)].1)
    } else {
        None
    }
}

/// The messages to pick from for `key`: its own, or those for `error` where
/// the table has no entry for `key`.
pub open spec fn candidates(table: Seq<(Seq<char>, Seq<Seq<char>>)>, key: Seq<char>) -> Option<
    Seq<Seq<char>>,
> {
    match messages_for(table, key) {
        Some(messages) => Some(messages),
        None => messages_for(table, "error"@),
    }
}

/// The occasions that every theme has messages for.
pub open spec fn occasions() -> Seq<Seq<char>> {
    seq![
        "prompt"@,
        "success_symbol"@,
        "error_symbol"@,
        "welcome"@,
        "help"@,
        "exit"@,
        "interrupt_signal"@,
        "eof_signal"@,
        "command_success"@,
        "command_error"@,
        "execution_error"@,
        "error"@,
    ]
}

/// The built-in messages: each occasion with what can be said.
pub open spec fn built_in() -> Seq<(Seq<char>, Seq<Seq<char>>)> {
    seq![
        ("prompt"@, seq![
            "雑魚～> "@,
            "雑魚～❥ "@,
        ]),
        ("success_symbol"@, seq![
            "♡"@,
        ]),
        ("error_symbol"@, seq![
            "✗"@,
        ]),
        ("welcome"@, seq![
            "哼～又来找人家玩了吗？真是个变态呢～"@,
            "啊啦～这不是变态先生吗？又来了呢～"@,
            "呵～看来某个废物又闲得发慌了呢"@,
            "哦？这不是那个笨蛋吗？竟然还敢来啊～"@,
            "真是的～明明这么废物还总是缠着人家呢～"@,
            "啊～又来了一个麻烦的家伙呢，真是拿你没办法～"@,
        ]),
        ("help"@, seq![
            "输入 'exit' 退出，虽然废物君可能连这个都记不住呢～"@,
            "想退出的话，输入 'exit' 哦～不过笨蛋君应该已经等不及了吧？"@,
            "记住了吗？是 'exit' 哦～真是的，要人家说几遍呢～"@,
            "哼～连退出命令都要人家教吗？真是个废物呢～"@,
            "啊啦～需要人家写下来吗？'exit' 很难记住吗？"@,
            "真是拿你没办法呢～退出就输入 'exit'，不会连这个都不会吧？"@,
        ]),
        ("exit"@, seq![
            "哼！这就走了吗？真是个没用的废物呢！"@,
            "切～这就受不了了吗？真是个废物呢！"@,
            "啊啦～逃跑了呢，果然是个胆小鬼呢～"@,
            "哼哼～终于知道自己有多废物了吗？"@,
            "呵～就这点耐心吗？不过也对，毕竟是废物呢～"@,
            "哎呀呀～这就撑不住了？真是个弱小的人呢～"@,
        ]),
        ("interrupt_signal"@, seq![
            "哼～想中断我吗？真是个急性子呢～ (Ctrl+C)"@,
            "啊啦～这就受不了了吗？ (Ctrl+C)"@,
            "呵～连这点耐心都没有吗？真逊呢～ (Ctrl+C)"@,
            "哎呀呀～这么粗暴的对待人家真是失礼呢～ (Ctrl+C)"@,
            "真是的～动不动就想中断，一点诚意都没有呢～ (Ctrl+C)"@,
            "哼！就这么讨厌人家吗？真是个坏心眼呢～ (Ctrl+C)"@,
        ]),
        ("eof_signal"@, seq![
            "呵～连再见都不说就想溜走吗？ (Ctrl+D)"@,
            "哼！真没礼貌呢，这种退出方式... (Ctrl+D)"@,
            "啊啦～想偷偷溜走吗？真是个胆小鬼呢～ (Ctrl+D)"@,
            "哼～这种退出方式，真是一点品味都没有呢～ (Ctrl+D)"@,
            "真是个笨蛋呢～连正常退出都不会吗？ (Ctrl+D)"@,
            "啊～又一个不懂礼貌的废物呢～ (Ctrl+D)"@,
        ]),
        ("command_success"@, seq![
            "哼～勉强算你做对了呢，不过也就这种程度了吧？"@,
            "啊啦～偶尔也能做对事呢，真是难得啊～"@,
            "哦？竟然成功了？看来今天运气不错呢，废物君～"@,
            "呵～这种程度的命令都要表扬吗？真是个小孩子呢～"@,
            "哎呀～竟然没出错，难道是人家的教育起作用了？"@,
            "勉强可以接受吧～不过不要得意忘形哦，废物君～"@,
        ]),
        ("command_error"@, seq![
            "啊啦啊啦～连这么简单的命令都搞不定呢，真是个废物呢！"@,
            "哼！果然是个笨蛋呢，这都能搞错～"@,
            "呵～这种程度就失败了？真是让人失望呢～"@,
            "啊～真是看不下去了，连这个都不会吗？"@,
            "真是的～需要人家手把手教你吗？真是个废物呢～"@,
            "哎呀呀～这种程度就犯错，看来你的极限就这样了呢～"@,
        ]),
        ("execution_error"@, seq![
            "真是个没用的废物呢～这种程度就不行了吗？"@,
            "哎呀呀～看来某人连基本的命令都掌握不好呢～"@,
            "啊啦～这就报错了？真是个脆弱的命令呢～"@,
            "哼！连这种小错误都处理不好，真是个废物呢！"@,
            "呵～就这点本事吗？真是让人失望呢～"@,
            "真是笨蛋呢～连这种简单的错误都搞不定～"@,
        ]),
        ("error"@, seq![
            "哼～出错了呢，真是个废物呢！"@,
            "啊啦～又搞砸了吗？真是拿你没办法呢～"@,
            "呵～这种低级错误，不愧是你呢～"@,
            "真是的～连这种错误都会犯，真是个笨蛋呢～"@,
            "哎呀呀～看来某人的能力还不够呢～"@,
            "啊～又出错了吗？真是个让人操心的废物呢～"@,
        ]),
    ]
}

/// `rand`'s `SliceRandom::choose` with the thread's generator: one of the
/// messages, and none only where there are none. Which one is left open.
#[verifier::external_body]
fn pick(messages: &Vec<String>) -> (picked: Option<&String>)
    ensures
        match picked {
            Some(message) => exists|i: int|
                0 <= i < messages@.len() && *message == #[trigger] messages@[i],
            None => messages@.len() == 0,
        },
{
    messages.choose(&mut rand::thread_rng())
}

/// The text of the message that was picked; the empty text for none.
pub fn picked_text(picked: Option<&String>) -> (text: String)
    ensures
        text@ == match picked {
            Some(message) => message@,
            None => Seq::<char>::empty(),
        },
{
    match picked {
        Some(message) => message.clone(),
        None => String::new(),
    }
}

fn entry(key: &str, texts: Vec<&str>) -> (e: (String, Vec<String>))
    ensures
        e.0@ == key@,
        e.1@.map_values(|m: String| m@) == texts@.map_values(|t: &str| t@),
{
    let mut messages: Vec<String> = Vec::new();
    let mut i: usize = 0;
    while i < texts.len()
        invariant
            i <= texts.len(),
            messages@.len() == i,
            forall|k: int| 0 <= k < i ==> (#[trigger] messages@[k])@ == texts@[k]@,
        decreases texts.len() - i,
    {
        messages.push(texts[i].to_owned());
        i += 1;
    }
    assert(messages@.map_values(|m: String| m@) =~= texts@.map_values(|t: &str| t@));
    (key.to_owned(), messages)
}

/// The texts of a list of occasions and their messages.
pub open spec fn table_of(messages: Seq<(String, Vec<String>)>) -> Seq<
    (Seq<char>, Seq<Seq<char>>),
> {
    messages.map_values(|e: (String, Vec<String>)| (e.0@, e.1@.map_values(|m: String| m@)))
}

/// Whether `table` has at least one message for each of the [`occasions`],
/// and entries for nothing else.
pub open spec fn complete(table: Seq<(Seq<char>, Seq<Seq<char>>)>) -> bool {
    &&& table.map_values(|e: (Seq<char>, Seq<Seq<char>>)| e.0) == occasions()
    &&& forall|i: int| 0 <= i < table.len() ==> (#[trigger] table[i]).1.len() > 0
}

/// The built-in theme has something to say on every occasion.
pub proof fn lemma_built_in_is_complete()
    ensures
        complete(built_in()),
{
    assert(built_in().map_values(|e: (Seq<char>, Seq<Seq<char>>)| e.0) =~= occasions());
}

impl Theme {
    /// The theme's table: each occasion with its messages, in order.
    pub closed spec fn table(&self) -> Seq<(Seq<char>, Seq<Seq<char>>)> {
        table_of(self.messages@)
    }

    /// Whether the theme has at least one message for each of the
    /// [`occasions`], and entries for nothing else.
    pub open spec fn complete(&self) -> bool {
        complete(self.table())
    }

    /// The built-in messages.
    pub fn init_messages() -> (messages: Vec<(String, Vec<String>)>)
        ensures
            table_of(messages@) == built_in(),
    {
        let mut messages: Vec<(String, Vec<String>)> = Vec::new();
        messages.push(
            entry(
                "prompt",
                vec![
                    "雑魚～> ",
                    "雑魚～❥ ",
                ],
            ),
        );
        assert(table_of(messages@).last().1 =~= built_in()[messages@.len() - 1].1);
        messages.push(
            entry(
                "success_symbol",
                vec![
                    "♡",
                ],
            ),
        );
        assert(table_of(messages@).last().1 =~= built_in()[messages@.len() - 1].1);
        messages.push(
            entry(
                "error_symbol",
                vec![
                    "✗",
                ],
            ),
        );
        assert(table_of(messages@).last().1 =~= built_in()[messages@.len() - 1].1);
        messages.push(
            entry(
                "welcome",
                vec![
                    "哼～又来找人家玩了吗？真是个变态呢～",
                    "啊啦～这不是变态先生吗？又来了呢～",
                    "呵～看来某个废物又闲得发慌了呢",
                    "哦？这不是那个笨蛋吗？竟然还敢来啊～",
                    "真是的～明明这么废物还总是缠着人家呢～",
                    "啊～又来了一个麻烦的家伙呢，真是拿你没办法～",
                ],
            ),
        );
        assert(table_of(messages@).last().1 =~= built_in()[messages@.len() - 1].1);
        messages.push(
            entry(
                "help",
                vec![
                    "输入 'exit' 退出，虽然废物君可能连这个都记不住呢～",
                    "想退出的话，输入 'exit' 哦～不过笨蛋君应该已经等不及了吧？",
                    "记住了吗？是 'exit' 哦～真是的，要人家说几遍呢～",
                    "哼～连退出命令都要人家教吗？真是个废物呢～",
                    "啊啦～需要人家写下来吗？'exit' 很难记住吗？",
                    "真是拿你没办法呢～退出就输入 'exit'，不会连这个都不会吧？",
                ],
            ),
        );
        assert(table_of(messages@).last().1 =~= built_in()[messages@.len() - 1].1);
        messages.push(
            entry(
                "exit",
                vec![
                    "哼！这就走了吗？真是个没用的废物呢！",
                    "切～这就受不了了吗？真是个废物呢！",
                    "啊啦～逃跑了呢，果然是个胆小鬼呢～",
                    "哼哼～终于知道自己有多废物了吗？",
                    "呵～就这点耐心吗？不过也对，毕竟是废物呢～",
                    "哎呀呀～这就撑不住了？真是个弱小的人呢～",
                ],
            ),
        );
        assert(table_of(messages@).last().1 =~= built_in()[messages@.len() - 1].1);
        messages.push(
            entry(
                "interrupt_signal",
                vec![
                    "哼～想中断我吗？真是个急性子呢～ (Ctrl+C)",
                    "啊啦～这就受不了了吗？ (Ctrl+C)",
                    "呵～连这点耐心都没有吗？真逊呢～ (Ctrl+C)",
                    "哎呀呀～这么粗暴的对待人家真是失礼呢～ (Ctrl+C)",
                    "真是的～动不动就想中断，一点诚意都没有呢～ (Ctrl+C)",
                    "哼！就这么讨厌人家吗？真是个坏心眼呢～ (Ctrl+C)",
                ],
            ),
        );
        assert(table_of(messages@).last().1 =~= built_in()[messages@.len() - 1].1);
        messages.push(
            entry(
                "eof_signal",
                vec![
                    "呵～连再见都不说就想溜走吗？ (Ctrl+D)",
                    "哼！真没礼貌呢，这种退出方式... (Ctrl+D)",
                    "啊啦～想偷偷溜走吗？真是个胆小鬼呢～ (Ctrl+D)",
                    "哼～这种退出方式，真是一点品味都没有呢～ (Ctrl+D)",
                    "真是个笨蛋呢～连正常退出都不会吗？ (Ctrl+D)",
                    "啊～又一个不懂礼貌的废物呢～ (Ctrl+D)",
                ],
            ),
        );
        assert(table_of(messages@).last().1 =~= built_in()[messages@.len() - 1].1);
        messages.push(
            entry(
                "command_success",
                vec![
                    "哼～勉强算你做对了呢，不过也就这种程度了吧？",
                    "啊啦～偶尔也能做对事呢，真是难得啊～",
                    "哦？竟然成功了？看来今天运气不错呢，废物君～",
                    "呵～这种程度的命令都要表扬吗？真是个小孩子呢～",
                    "哎呀～竟然没出错，难道是人家的教育起作用了？",
                    "勉强可以接受吧～不过不要得意忘形哦，废物君～",
                ],
            ),
        );
        assert(table_of(messages@).last().1 =~= built_in()[messages@.len() - 1].1);
        messages.push(
            entry(
                "command_error",
                vec![
                    "啊啦啊啦～连这么简单的命令都搞不定呢，真是个废物呢！",
                    "哼！果然是个笨蛋呢，这都能搞错～",
                    "呵～这种程度就失败了？真是让人失望呢～",
                    "啊～真是看不下去了，连这个都不会吗？",
                    "真是的～需要人家手把手教你吗？真是个废物呢～",
                    "哎呀呀～这种程度就犯错，看来你的极限就这样了呢～",
                ],
            ),
        );
        assert(table_of(messages@).last().1 =~= built_in()[messages@.len() - 1].1);
        messages.push(
            entry(
                "execution_error",
                vec![
                    "真是个没用的废物呢～这种程度就不行了吗？",
                    "哎呀呀～看来某人连基本的命令都掌握不好呢～",
                    "啊啦～这就报错了？真是个脆弱的命令呢～",
                    "哼！连这种小错误都处理不好，真是个废物呢！",
                    "呵～就这点本事吗？真是让人失望呢～",
                    "真是笨蛋呢～连这种简单的错误都搞不定～",
                ],
            ),
        );
        assert(table_of(messages@).last().1 =~= built_in()[messages@.len() - 1].1);
        messages.push(
            entry(
                "error",
                vec![
                    "哼～出错了呢，真是个废物呢！",
                    "啊啦～又搞砸了吗？真是拿你没办法呢～",
                    "呵～这种低级错误，不愧是你呢～",
                    "真是的～连这种错误都会犯，真是个笨蛋呢～",
                    "哎呀呀～看来某人的能力还不够呢～",
                    "啊～又出错了吗？真是个让人操心的废物呢～",
                ],
            ),
        );
        assert(table_of(messages@).last().1 =~= built_in()[messages@.len() - 1].1);
        assert(table_of(messages@) =~= built_in());
        messages
    }

    /// Loads the theme kept in the file at `path`. Themes are not read from
    /// files yet: this is always the built-in theme.
    pub fn load_from_file(_path: String) -> (loaded: Result<Theme, String>)
        ensures
            loaded matches Ok(theme) && theme.table() == built_in(),
    {
        Ok(Theme::default())
    }

    /// The theme called `theme_name` from the themes directory of `config`.
    pub fn load_theme(theme_name: &str, config: &Config) -> (theme: Theme)
        ensures
            theme.table() == built_in(),
    {
        let mut file = theme_name.to_owned();
        vstd::string::StringExecFns::append(&mut file, ".zsh-theme");
        let path = crate::path::join_path(config.themes_dir.as_str(), file.as_str());
        match Theme::load_from_file(path) {
            Ok(theme) => theme,
            Err(_) => Theme::default(),
        }
    }

    /// Where the entry for `key` stands in the table.
    fn position(&self, key: &str) -> (found: Option<usize>)
        ensures
            match found {
                Some(pos) => pos < self.messages@.len() && messages_for(self.table(), key@)
                    == Some(self.table()[pos as int].1),
                None => messages_for(self.table(), key@) is None,
            },
    {
        let mut i: usize = 0;
        while i < self.messages.len()
            invariant
                i <= self.messages.len(),
                forall|k: int| 0 <= k < i ==> (#[trigger] self.table()[k]).0 != key@,
            decreases self.messages.len() - i,
        {
            if same_text(self.messages[i].0.as_str(), key) {
                proof {
                    let table = self.table();
                    assert(table[i as int].0 == key@);
                    assert(is_entry_for(table, key@, i as int));
                    let chosen = choose|pos: int| is_entry_for(table, key@, pos);
                    if chosen < i {
                        assert(table[chosen].0 != key@);
                    } else if chosen > i {
                        assert(table[i as int].0 != key@);
                    }
                }
                return Some(i);
            }
            i += 1;
        }
        proof {
            let table = self.table();
            if exists|pos: int| is_entry_for(table, key@, pos) {
                let pos = choose|pos: int| is_entry_for(table, key@, pos);
                assert(table[pos].0 != key@);
            }
        }
        None
    }

    /// A message for the occasion `key`, picked at random among those the
    /// theme has for it; where it knows no such occasion, a message for
    /// `error`. The empty text where there is nothing to pick from.
    pub fn get_message(&self, key: &str) -> (text: String)
        ensures
            match candidates(self.table(), key@) {
                Some(messages) => if messages.len() > 0 {
                    exists|i: int| 0 <= i < messages.len() && text@ == #[trigger] messages[i]
                } else {
                    text@ == Seq::<char>::empty()
                },
                None => text@ == Seq::<char>::empty(),
            },
    {
        let found = match self.position(key) {
            Some(pos) => Some(pos),
            None => self.position("error"),
        };
        match found {
            Some(pos) => {
                let messages = &self.messages[pos].1;
                let picked = pick(messages);
                proof {
                    let texts = self.table()[pos as int].1;
                    assert(texts == messages@.map_values(|m: String| m@));
                    if picked is Some {
                        let i = choose|i: int|
                            0 <= i < messages@.len() && *picked->0 == #[trigger] messages@[i];
                        assert(texts[i] == messages@[i]@);
                    }
                }
                picked_text(picked)
            },
            None => String::new(),
        }
    }
}

impl Default for Theme {
    /// The built-in theme.
    fn default() -> (theme: Theme)
        ensures
            theme.table() == built_in(),
    {
        Theme { messages: Theme::init_messages() }
    }
}

} // verus!
